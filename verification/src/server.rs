//! What lies between HTTP messages and handlers: request ids and heads, response
//! heads and frames, the address to listen on.
use crate::buffers;
#[allow(unused_imports)]
use crate::buffers::filled;
use crate::fields::Fields;
#[allow(unused_imports)]
use crate::fields::{field_of, keyed_at, lemma_listed_field, lists, put, FieldView};
use crate::handler::{
    BufferedBody, EitherBody, NoBody, Request, Response, ResponseBody, StringId, least,
};
use crate::http;
use crate::http::{Method, StatusCode};
use crate::ids;
use crate::text;
use crate::uri_subject;
use crate::uri_subject::Uri;
use bytes::BytesMut;
use std::borrow::Cow;
#[allow(unused_imports)]
use vstd::utf8::{decode_utf8, encode_utf8};
use vstd::prelude::*;

verus! {

/// A header of a message as it came: the name and the bytes of the value.
pub struct RawHeader {
    pub name: String,
    pub value: Vec<u8>,
}

/// Whether a byte of a header value is visible ASCII, a space or a tab.
pub open spec fn visible(b: u8) -> bool {
    0x20 <= b < 0x7f || b == 0x9
}

/// The text of a header value, if it is visible ASCII.
pub open spec fn value_text(value: Seq<u8>) -> Option<Seq<char>> {
    if forall|i: int| 0 <= i < value.len() ==> visible(#[trigger] value[i]) {
        Some(value.map_values(|b: u8| b as char))
    } else {
        None
    }
}

/// `hyper::header::HeaderValue::to_str` gives the text of a value whose bytes are all
/// visible ASCII, spaces and tabs.
#[verifier::external_body]
pub(crate) fn to_str(value: &[u8]) -> (r: Option<String>)
    ensures
        uri_subject::text_of(r) == value_text(value@),
{
    let value = hyper::header::HeaderValue::from_bytes(value).ok()?;
    value.to_str().ok().map(|text| text.to_owned())
}

/// A text with each ASCII capital in lowercase.
pub open spec fn ascii_folded(text: Seq<char>) -> Seq<char> {
    text.map_values(|c: char| text::ascii_lowercase(c))
}

/// Whether a header name is that of a request id.
pub open spec fn names_req_id(name: Seq<char>) -> bool {
    ascii_folded(name) == "req-id"@
}

fn is_req_id(name: &str) -> (r: bool)
    ensures
        r == names_req_id(name@),
{
    let mut folded: String = String::new();
    for c in it: name.chars()
        invariant
            it.seq() == name@,
            folded@ == ascii_folded(name@.take(it.index())),
    {
        let ghost i = it.index();
        let ghost before = folded@;
        let lower = if 'A' <= c && c <= 'Z' {
            (c as u8 + 32) as char
        } else {
            c
        };
        folded.push(lower);
        assert(ascii_folded(name@.take(i + 1)) =~= before.push(text::ascii_lowercase(c)));
    }
    assert(name@.take(name@.len() as int) =~= name@);
    text::same(folded.as_str(), "req-id")
}

/// The request id that a header gives.
pub open spec fn req_id_of(header: RawHeader) -> Option<Seq<char>> {
    if names_req_id(header.name@) {
        value_text(header.value@)
    } else {
        None
    }
}

/// The request id that the first header with one gives.
pub open spec fn given_req_id(headers: Seq<RawHeader>) -> Option<Seq<char>>
    decreases headers.len(),
{
    if headers.len() == 0 {
        None
    } else {
        match req_id_of(headers[0]) {
            Some(id) => Some(id),
            None => given_req_id(headers.drop_first()),
        }
    }
}

/// The name of a request id is `req-id`, in any casing, and no other.
pub proof fn law_req_id_is_named_in_any_casing(name: Seq<char>)
    ensures
        names_req_id(name) <==> {
            &&& name.len() == 6
            &&& name[0] == 'r' || name[0] == 'R'
            &&& name[1] == 'e' || name[1] == 'E'
            &&& name[2] == 'q' || name[2] == 'Q'
            &&& name[3] == '-'
            &&& name[4] == 'i' || name[4] == 'I'
            &&& name[5] == 'd' || name[5] == 'D'
        },
{
    reveal_strlit("req-id");
    let folded = ascii_folded(name);
    assert("req-id"@.len() == 6);
    assert("req-id"@[0] == 'r' && "req-id"@[1] == 'e' && "req-id"@[2] == 'q' && "req-id"@[3]
        == '-' && "req-id"@[4] == 'i' && "req-id"@[5] == 'd');
    if name.len() == 6 {
        assert forall|i: int| 0 <= i < 6 implies #[trigger] folded[i] == text::ascii_lowercase(
            name[i],
        ) by {}
        assert(folded[0] == text::ascii_lowercase(name[0]));
        assert(folded[1] == text::ascii_lowercase(name[1]));
        assert(folded[2] == text::ascii_lowercase(name[2]));
        assert(folded[3] == text::ascii_lowercase(name[3]));
        assert(folded[4] == text::ascii_lowercase(name[4]));
        assert(folded[5] == text::ascii_lowercase(name[5]));
        if folded[0] == 'r' && folded[1] == 'e' && folded[2] == 'q' && folded[3] == '-'
            && folded[4] == 'i' && folded[5] == 'd' {
            assert(folded =~= "req-id"@);
        }
    }
}

/// The text of a header value has the bytes of the value as its characters; it is there
/// exactly if they are all visible ASCII, spaces and tabs.
pub proof fn law_value_text_is_the_bytes(value: Seq<u8>)
    ensures
        value_text(value) is Some <==> forall|i: int|
            0 <= i < value.len() ==> 0x20 <= #[trigger] value[i] < 0x7f || value[i] == 0x9,
        value_text(value) matches Some(text) ==> text.len() == value.len() && forall|i: int|
            0 <= i < value.len() ==> #[trigger] text[i] == value[i] as char,
{
    if forall|i: int| 0 <= i < value.len() ==> 0x20 <= #[trigger] value[i] < 0x7f || value[i]
        == 0x9 {
        assert forall|i: int| 0 <= i < value.len() implies visible(#[trigger] value[i]) by {}
    }
}

/// The request id is the text of the first header that is named so and has one; there is
/// none exactly if no header has.
pub proof fn law_first_req_id_counts(headers: Seq<RawHeader>)
    ensures
        match given_req_id(headers) {
            Some(id) => exists|i: int|
                {
                    &&& 0 <= i < headers.len()
                    &&& names_req_id((#[trigger] headers[i]).name@)
                    &&& value_text(headers[i].value@) == Some(id)
                    &&& forall|j: int|
                        0 <= j < i ==> !(names_req_id((#[trigger] headers[j]).name@) && value_text(
                            headers[j].value@,
                        ) is Some)
                },
            None => forall|j: int|
                0 <= j < headers.len() ==> !(names_req_id((#[trigger] headers[j]).name@)
                    && value_text(headers[j].value@) is Some),
        },
    decreases headers.len(),
{
    if headers.len() > 0 {
        let rest = headers.drop_first();
        law_first_req_id_counts(rest);
        if req_id_of(headers[0]) is Some {
            assert(names_req_id(headers[0].name@));
        } else {
            match given_req_id(rest) {
                Some(id) => {
                    let i = choose|i: int|
                        {
                            &&& 0 <= i < rest.len()
                            &&& names_req_id((#[trigger] rest[i]).name@)
                            &&& value_text(rest[i].value@) == Some(id)
                            &&& forall|j: int|
                                0 <= j < i ==> !(names_req_id((#[trigger] rest[j]).name@)
                                    && value_text(rest[j].value@) is Some)
                        };
                    assert(headers[i + 1] == rest[i]);
                    assert forall|j: int| 0 <= j < i + 1 implies !(names_req_id(
                        (#[trigger] headers[j]).name@,
                    ) && value_text(headers[j].value@) is Some) by {
                        if j > 0 {
                            assert(headers[j] == rest[j - 1]);
                        }
                    }
                },
                None => {
                    assert forall|j: int| 0 <= j < headers.len() implies !(names_req_id(
                        (#[trigger] headers[j]).name@,
                    ) && value_text(headers[j].value@) is Some) by {
                        if j > 0 {
                            assert(headers[j] == rest[j - 1]);
                        }
                    }
                },
            }
        }
    }
}

/// The request id that the headers give, if any does.
pub fn find_req_id(headers: &Vec<RawHeader>) -> (r: Option<String>)
    ensures
        uri_subject::text_of(r) == given_req_id(headers@),
        match r {
            Some(id) => given_req_id(headers@) == Some(id@),
            None => given_req_id(headers@) is None,
        },
{
    let mut i: usize = 0;
    assert(headers@.skip(0) =~= headers@);
    while i < headers.len()
        invariant
            i <= headers.len(),
            given_req_id(headers@) == given_req_id(headers@.skip(i as int)),
        decreases headers.len() - i,
    {
        assert(headers@.skip(i as int).drop_first() =~= headers@.skip(i + 1));
        if let Some(value) = to_str(headers[i].value.as_slice()) {
            if is_req_id(headers[i].name.as_str()) {
                return Some(value);
            }
        }
        i = i + 1;
    }
    None
}

/// The request id that the headers give, or the text of a new UUID.
pub fn extract_req_id(headers: &Vec<RawHeader>) -> (r: String)
    ensures
        match given_req_id(headers@) {
            Some(id) => r@ == id,
            None => exists|id: u128| ids::version(id) == 7 && r@ == #[trigger] ids::hyphenated(id),
        },
{
    match find_req_id(headers) {
        Some(id) => id,
        None => ids::to_text(ids::now_v7()),
    }
}

/// The headers that a request is routed with: those whose values are visible ASCII,
/// without the request id. Of names that differ only in case the value of the last one
/// counts; the name keeps the spelling of the first.
pub open spec fn routed_headers(headers: Seq<RawHeader>) -> Map<Seq<char>, FieldView>
    decreases headers.len(),
{
    if headers.len() == 0 {
        Map::empty()
    } else {
        let before = routed_headers(headers.drop_last());
        let header = headers.last();
        match value_text(header.value@) {
            Some(value) => if names_req_id(header.name@) {
                before
            } else {
                put(before, header.name@, value)
            },
            None => before,
        }
    }
}

/// A header with a visible value that is no request id is found under its name, with its
/// value as it came; it takes the place of an earlier value of the name, whose spelling
/// stays. No other header changes.
pub proof fn law_header_is_routed_with_its_value(
    headers: Seq<RawHeader>,
    header: RawHeader,
    other: Seq<char>,
)
    requires
        value_text(header.value@) is Some,
        !names_req_id(header.name@),
        other != text::lowercase(header.name@),
    ensures
        ({
            let id = text::lowercase(header.name@);
            let before = routed_headers(headers);
            let after = routed_headers(headers.push(header));
            &&& after.contains_key(id)
            &&& after[id].value == value_text(header.value@)->0
            &&& after[id].name == if before.contains_key(id) {
                before[id].name
            } else {
                header.name@
            }
            &&& after.contains_key(other) <==> before.contains_key(other)
            &&& after[other] == before[other]
        }),
{
    assert(headers.push(header).drop_last() =~= headers);
}

/// A request id and a header whose value is not visible are not routed with; without
/// headers there are none.
pub proof fn law_other_headers_are_passed_over(headers: Seq<RawHeader>, header: RawHeader)
    requires
        value_text(header.value@) is None || names_req_id(header.name@),
    ensures
        routed_headers(headers.push(header)) == routed_headers(headers),
        routed_headers(Seq::<RawHeader>::empty()) == Map::<Seq<char>, FieldView>::empty(),
{
    assert(headers.push(header).drop_last() =~= headers);
}

/// The headers that a request is routed with.
pub fn request_headers(headers: &Vec<RawHeader>) -> (r: Fields)
    ensures
        r@ == routed_headers(headers@),
{
    let mut r = Fields::new();
    let mut i: usize = 0;
    assert(headers@.take(0) =~= Seq::empty());
    while i < headers.len()
        invariant
            i <= headers.len(),
            r@ == routed_headers(headers@.take(i as int)),
        decreases headers.len() - i,
    {
        assert(headers@.take(i + 1).drop_last() =~= headers@.take(i as int));
        if let Some(value) = to_str(headers[i].value.as_slice()) {
            if !is_req_id(headers[i].name.as_str()) {
                let _ = r.insert(StringId::new(headers[i].name.as_str()), value);
            }
        }
        i = i + 1;
    }
    assert(headers@.take(headers@.len() as int) =~= headers@);
    r
}

/// The request that a message is routed as.
pub fn to_request<B>(method: &str, uri: Uri, headers: &Vec<RawHeader>, body: B) -> (r: Request<B>)
    ensures
        r.method@ == http::method_named(method@),
        uri_subject::made_from_each(
            r.path@,
            match uri.path {
                Some(path) => uri_subject::path_segments(path@),
                None => Seq::empty(),
            },
        ),
        match uri.path {
            Some(path) => {
                &&& r.path@.len() == uri_subject::path_segments(path@).len()
                &&& forall|i: int|
                    0 <= i < r.path@.len() ==> (#[trigger] r.path@[i]).text()
                        == uri_subject::path_segments(path@)[i] && r.path@[i].ident()
                        == text::lowercase(uri_subject::path_segments(path@)[i])
            },
            None => r.path@.len() == 0,
        },
        r.headers@ == routed_headers(headers@),
        r.query@ == match uri.query {
            Some(query) => uri_subject::query_parameters(query@),
            None => Map::empty(),
        },
        r.body == body,
{
    let headers = request_headers(headers);
    let query = uri_subject::uri_to_query(&uri);
    let path = uri_subject::uri_to_path(uri);
    Request { method: Method::from_name(method), path, headers, query, body }
}

/// A response to a request whose handler panicked: `500 Internal Server Error` with
/// an empty body.
pub struct PanicResponse;

impl Response for PanicResponse {
    type Body = NoBody;

    open spec fn status(&self) -> StatusCode {
        StatusCode(http::INTERNAL_SERVER_ERROR)
    }

    open spec fn headers(&self) -> Map<Seq<char>, FieldView> {
        Map::empty()
    }

    open spec fn has_body(&self, body: NoBody) -> bool {
        true
    }

    fn status_code(&self) -> (r: StatusCode) {
        StatusCode(http::INTERNAL_SERVER_ERROR)
    }

    fn into_body(self) -> (r: NoBody) {
        NoBody
    }

    fn extra_headers(&self) -> (r: Fields) {
        Fields::new()
    }
}

/// A panic is answered `500`, without headers.
pub proof fn law_panic_is_a_server_error(response: PanicResponse)
    ensures
        response.status() == StatusCode(500),
        response.headers() == Map::<Seq<char>, FieldView>::empty(),
{
}

/// Whether a character may stand in a header name.
pub open spec fn token(c: char) -> bool {
    ||| 'a' <= c <= 'z'
    ||| 'A' <= c <= 'Z'
    ||| '0' <= c <= '9'
    ||| c == '!' || c == '#' || c == '$' || c == '%' || c == '&' || c == '\'' || c == '*' || c == '+'
    ||| c == '-' || c == '.' || c == '^' || c == '_' || c == '`' || c == '|' || c == '~'
}

/// The header name that a text is: its characters are tokens and at least one and at
/// most 65535; capitals are lowercased.
pub open spec fn header_name(text: Seq<char>) -> Option<Seq<char>> {
    if 1 <= text.len() <= 65535 && forall|i: int|
        0 <= i < text.len() ==> token(#[trigger] text[i]) {
        Some(ascii_folded(text))
    } else {
        None
    }
}

/// `hyper::header::HeaderName` is parsed from a text of one to 65535 token characters,
/// which it lowercases.
#[verifier::external_body]
pub(crate) fn to_header_name(text: &str) -> (r: Option<String>)
    ensures
        uri_subject::text_of(r) == header_name(text@),
{
    let name = text.parse::<hyper::header::HeaderName>().ok()?;
    Some(name.as_str().to_owned())
}

/// Whether a text can be a header value: it holds no control character but the tab.
pub open spec fn header_value(text: Seq<char>) -> bool {
    forall|i: int| 0 <= i < text.len() ==> value_char(#[trigger] text[i])
}

/// Whether a character may stand in a header value.
pub open spec fn value_char(c: char) -> bool {
    c == '\t' || (' ' <= c && c != '\u{7f}')
}

/// `hyper::header::HeaderValue::from_str` accepts a text without control characters
/// other than the tab.
#[verifier::external_body]
pub(crate) fn is_header_value(text: &str) -> (r: bool)
    ensures
        r == header_value(text@),
{
    hyper::header::HeaderValue::from_str(text).is_ok()
}

/// Why a response could not be sent.
#[derive(Clone, Copy, Debug, PartialEq, Eq, Structural)]
pub enum HeaderError {
    /// A text is no header name.
    Name,
    /// A text is no header value.
    Value,
}

/// The names and values of some headers.
pub open spec fn header_views(list: Seq<(String, String)>) -> Seq<(Seq<char>, Seq<char>)> {
    list.map_values(|header: (String, String)| (header.0@, header.1@))
}

/// The headers that some fields are sent as, in their order; the first field that is
/// no header makes an error.
pub open spec fn sent_fields(fields: Seq<(StringId, String)>) -> Result<
    Seq<(Seq<char>, Seq<char>)>,
    HeaderError,
>
    decreases fields.len(),
{
    if fields.len() == 0 {
        Ok(Seq::empty())
    } else {
        match sent_fields(fields.drop_last()) {
            Ok(before) => match header_name(fields.last().0.text()) {
                Some(name) => if header_value(fields.last().1@) {
                    Ok(before.push((name, fields.last().1@)))
                } else {
                    Err(HeaderError::Value)
                },
                None => Err(HeaderError::Name),
            },
            Err(error) => Err(error),
        }
    }
}

/// The headers that a response is sent with: the content type, unless it is empty,
/// and the fields.
pub open spec fn sent_headers(mime: Seq<char>, fields: Seq<(StringId, String)>) -> Result<
    Seq<(Seq<char>, Seq<char>)>,
    HeaderError,
> {
    if mime.len() == 0 {
        sent_fields(fields)
    } else if !header_value(mime) {
        Err(HeaderError::Value)
    } else {
        match sent_fields(fields) {
            Ok(headers) => Ok(seq![("content-type"@, mime)] + headers),
            Err(error) => Err(error),
        }
    }
}

/// The headers that a response is sent with. The fields are sent one by one, each once.
pub fn response_headers(content_type: Cow<'static, str>, fields: &Fields) -> (r: Result<
    Vec<(String, String)>,
    HeaderError,
>)
    ensures
        lists(fields.listed(), fields@),
        r matches Ok(headers) ==> {
            let typed: int = if content_type@.len() == 0 {
                0
            } else {
                1
            };
            &&& headers@.len() == typed + fields.listed().len()
            &&& content_type@.len() > 0 ==> headers@[0].0@ == "content-type"@ && headers@[0].1@
                == content_type@
            &&& forall|i: int|
                0 <= i < fields.listed().len() ==> header_name((#[trigger] fields.listed()[i]).0.text())
                    == Some(headers@[typed + i].0@) && headers@[typed + i].1@
                    == fields.listed()[i].1@
        },
        r is Ok <==> (content_type@.len() == 0 || header_value(content_type@)) && forall|i: int|
            0 <= i < fields.listed().len() ==> header_name(
                (#[trigger] fields.listed()[i]).0.text(),
            ) is Some && header_value(fields.listed()[i].1@),
        match r {
            Ok(headers) => sent_headers(content_type@, fields.listed()) == Ok::<
                Seq<(Seq<char>, Seq<char>)>,
                HeaderError,
            >(header_views(headers@)),
            Err(error) => sent_headers(content_type@, fields.listed()) == Err::<
                Seq<(Seq<char>, Seq<char>)>,
                HeaderError,
            >(error),
        },
{
    let total: usize = fields.len();
    let mime: String = match content_type {
        Cow::Borrowed(mime) => mime.to_owned(),
        Cow::Owned(mime) => mime,
    };
    let mut list: Vec<(String, String)> = Vec::new();
    let ghost named = mime@;
    if mime.as_str().unicode_len() > 0 {
        if !is_header_value(mime.as_str()) {
            return Err(HeaderError::Value);
        }
        list.push(("content-type".to_owned(), mime));
    }
    let ghost start = header_views(list@);
    let ghost all = fields.listed();
    let mut i: usize = 0;
    proof {
        assert(all.take(0) =~= Seq::empty());
        if named.len() > 0 {
            assert(start =~= seq![("content-type"@, named)]);
        } else {
            assert(start =~= Seq::empty());
        }
        assert(start + Seq::empty() =~= start);
    }
    while i < total
        invariant
            i <= all.len(),
            total == all.len(),
            all == fields.listed(),
            lists(all, fields@),
            match sent_fields(all.take(i as int)) {
                Ok(headers) => header_views(list@) == start + headers,
                Err(_) => false,
            },
            named.len() > 0 ==> header_value(named),
            start == if named.len() > 0 {
                seq![("content-type"@, named)]
            } else {
                Seq::empty()
            },
            named == content_type@,
        decreases all.len() - i,
    {
        let ghost before = list@;
        proof {
            assert(all.take(i + 1).drop_last() =~= all.take(i as int));
            assert(all.take(i + 1).last() == all[i as int]);
        }
        let (key, value) = fields.entry(i);
        let name = match to_header_name(&**key) {
            Some(name) => name,
            None => {
                proof {
                    lemma_error_stays(all, i + 1);
                }
                return Err(HeaderError::Name);
            },
        };
        if !is_header_value(value.as_str()) {
            proof {
                lemma_error_stays(all, i + 1);
            }
            return Err(HeaderError::Value);
        }
        list.push((name, value.clone()));
        proof {
            assert(header_views(list@) =~= header_views(before).push((name@, value@)));
            let headers = sent_fields(all.take(i as int))->Ok_0;
            assert((start + headers).push((name@, value@)) =~= start + headers.push(
                (name@, value@),
            ));
        }
        i = i + 1;
    }
    proof {
        assert(all.take(all.len() as int) =~= all);
        assert(start + sent_fields(all)->Ok_0 =~= header_views(list@));
        if named.len() == 0 {
            assert(sent_fields(all)->Ok_0 =~= header_views(list@));
        }
        lemma_fields_are_sent_in_order(all);
        let sent = sent_fields(all)->Ok_0;
        let typed: int = start.len() as int;
        assert(header_views(list@) =~= start + sent);
        if named.len() > 0 {
            assert(header_views(list@)[0] == start[0]);
        }
        assert forall|i: int| 0 <= i < all.len() implies header_name((#[trigger] all[i]).0.text())
            == Some(list@[typed + i].0@) && list@[typed + i].1@ == all[i].1@ && header_value(
            all[i].1@,
        ) by {
            assert(header_views(list@)[typed + i] == sent[i]);
            assert(header_of(field_of(all[i])) == Some(sent[i]));
        }
    }
    Ok(list)
}

/// What is no header among the first fields makes the error of all of them.
proof fn lemma_error_stays(fields: Seq<(StringId, String)>, n: int)
    requires
        0 <= n <= fields.len(),
        sent_fields(fields.take(n)) is Err,
    ensures
        sent_fields(fields) == sent_fields(fields.take(n)),
    decreases fields.len() - n,
{
    if n == fields.len() {
        assert(fields.take(n) =~= fields);
    } else {
        assert(fields.take(n + 1).drop_last() =~= fields.take(n));
        lemma_error_stays(fields, n + 1);
    }
}

/// The header that a field is sent as.
pub open spec fn header_of(field: FieldView) -> Option<(Seq<char>, Seq<char>)> {
    match header_name(field.name) {
        Some(name) => if header_value(field.value) {
            Some((name, field.value))
        } else {
            None
        },
        None => None,
    }
}

/// Fields are sent exactly if each of them is a header, each as that header.
proof fn lemma_fields_are_sent_in_order(fields: Seq<(StringId, String)>)
    ensures
        sent_fields(fields) is Ok <==> forall|i: int|
            0 <= i < fields.len() ==> header_of(field_of(#[trigger] fields[i])) is Some,
        sent_fields(fields) matches Ok(headers) ==> headers.len() == fields.len() && forall|i: int|
            0 <= i < fields.len() ==> header_of(field_of(#[trigger] fields[i])) == Some(headers[i]),
    decreases fields.len(),
{
    if fields.len() > 0 {
        let before = fields.drop_last();
        let last = fields.len() - 1;
        lemma_fields_are_sent_in_order(before);
        if sent_fields(before) is Ok {
            let headers = sent_fields(before)->Ok_0;
            assert(forall|i: int| 0 <= i < before.len() ==> before[i] == #[trigger] fields[i]);
            assert(sent_fields(fields) is Ok <==> header_of(field_of(fields[last])) is Some);
            if sent_fields(fields) is Ok {
                assert forall|i: int| 0 <= i < fields.len() implies header_of(
                    field_of(#[trigger] fields[i]),
                ) == Some(sent_fields(fields)->Ok_0[i]) by {
                    if i < last {
                        assert(before[i] == fields[i]);
                    }
                }
            }
        } else {
            let i = choose|i: int|
                0 <= i < before.len() && header_of(field_of(#[trigger] before[i])) is None;
            assert(fields[i] == before[i]);
        }
    }
}

/// A response is sent exactly if its content type is empty or a header value and each
/// of its extra headers is a header. Then it is sent with the content type, unless that
/// is empty, with each of the extra headers once, and with nothing else.
pub proof fn law_response_is_sent_with_exactly_its_headers(
    mime: Seq<char>,
    fields: Seq<(StringId, String)>,
    extra: Map<Seq<char>, FieldView>,
)
    requires
        lists(fields, extra),
    ensures
        sent_headers(mime, fields) is Ok <==> (mime.len() == 0 || header_value(mime)) && forall|
            id: Seq<char>,
        | #[trigger]
            extra.contains_key(id) ==> header_of(extra[id]) is Some,
        sent_headers(mime, fields) matches Ok(headers) ==> {
            let typed: int = if mime.len() == 0 {
                0
            } else {
                1
            };
            &&& headers.len() == typed + extra.dom().len()
            &&& extra.dom().finite()
            &&& mime.len() > 0 ==> headers[0] == ("content-type"@, mime)
            &&& forall|id: Seq<char>| #[trigger]
                extra.contains_key(id) ==> exists|j: int|
                    typed <= j < headers.len() && header_of(extra[id]) == Some(
                        #[trigger] headers[j],
                    )
            &&& forall|j: int|
                typed <= j < headers.len() ==> exists|id: Seq<char>| #[trigger]
                    extra.contains_key(id) && header_of(extra[id]) == Some(#[trigger] headers[j])
        },
{
    lemma_fields_are_sent_in_order(fields);
    let ids = fields.map_values(|entry: (StringId, String)| entry.0.ident());
    assert(ids.no_duplicates()) by {
        assert forall|i: int, j: int| 0 <= i < j < ids.len() implies ids[i] != ids[j] by {
            assert(fields[i].0.ident() != fields[j].0.ident());
        }
    }
    assert forall|i: int| 0 <= i < fields.len() implies extra.contains_key(
        #[trigger] ids[i],
    ) && extra[ids[i]] == field_of(fields[i]) by {
        lemma_listed_field(fields, i);
    }
    assert forall|id: Seq<char>| #[trigger] extra.contains_key(id) implies exists|i: int|
        0 <= i < ids.len() && #[trigger] ids[i] == id by {
        let i = choose|i: int| keyed_at(fields, id, i);
        assert(ids[i] == id);
    }
    assert(extra.dom() =~= ids.to_set());
    ids.unique_seq_to_set();
    assert(extra.dom().len() == fields.len());
    if sent_fields(fields) is Ok {
        assert forall|id: Seq<char>| #[trigger] extra.contains_key(id) implies header_of(
            extra[id],
        ) is Some by {
            let i = choose|i: int| 0 <= i < ids.len() && #[trigger] ids[i] == id;
            assert(header_of(field_of(fields[i])) is Some);
        }
    } else {
        let i = choose|i: int|
            0 <= i < fields.len() && header_of(field_of(#[trigger] fields[i])) is None;
        assert(extra.contains_key(ids[i]));
    }
    if sent_headers(mime, fields) is Ok {
        let headers = sent_headers(mime, fields)->Ok_0;
        let typed: int = if mime.len() == 0 {
            0
        } else {
            1
        };
        assert forall|i: int| 0 <= i < fields.len() implies header_of(
            field_of(#[trigger] fields[i]),
        ) == Some(headers[typed + i]) by {}
        assert forall|id: Seq<char>| #[trigger] extra.contains_key(id) implies exists|j: int|
            typed <= j < headers.len() && header_of(extra[id]) == Some(#[trigger] headers[j]) by {
            let i = choose|i: int| 0 <= i < ids.len() && #[trigger] ids[i] == id;
            assert(header_of(field_of(fields[i])) == Some(headers[typed + i]));
        }
        assert forall|j: int| typed <= j < headers.len() implies exists|id: Seq<char>| #[trigger]
            extra.contains_key(id) && header_of(extra[id]) == Some(#[trigger] headers[j]) by {
            let i = j - typed;
            assert(extra.contains_key(ids[i]));
            assert(header_of(field_of(fields[i])) == Some(headers[typed + i]));
        }
    }
}

/// A response as it is sent.
pub struct Sent<R> {
    pub status: StatusCode,
    pub headers: Vec<(String, String)>,
    pub body: WriteBody<R>,
}

/// Makes of a response, or of the panic of its handler, what is sent.
pub fn to_sent<R: Response>(response: Result<R, PanicResponse>) -> (r: Result<
    Sent<EitherBody<R::Body, NoBody>>,
    HeaderError,
>)
    ensures
        exists|fields: Seq<(StringId, String)>, body: EitherBody<R::Body, NoBody>|
            lists(fields, response.headers()) && response.has_body(body) && #[trigger] sent_as(
                response.status(),
                fields,
                body,
                r,
            ),
        r matches Ok(sent) ==> {
            let typed: int = if sent.body.write.mime().len() == 0 {
                0
            } else {
                1
            };
            &&& sent.status == response.status()
            &&& response.has_body(sent.body.write)
            &&& filled(sent.body.buf).len() == 0
            &&& sent.headers@.len() == typed + response.headers().dom().len()
            &&& typed == 1 ==> sent.headers@[0].0@ == "content-type"@ && sent.headers@[0].1@
                == sent.body.write.mime()
            &&& forall|id: Seq<char>| #[trigger]
                response.headers().contains_key(id) ==> exists|j: int|
                    {
                        &&& typed <= j < sent.headers@.len()
                        &&& header_name(response.headers()[id].name) == Some(
                            (#[trigger] sent.headers@[j]).0@,
                        )
                        &&& sent.headers@[j].1@ == response.headers()[id].value
                    }
        },
        (exists|id: Seq<char>| #[trigger]
            response.headers().contains_key(id) && !(header_name(response.headers()[id].name)
                is Some && header_value(response.headers()[id].value))) ==> r is Err,
{
    let status = response.status_code();
    let fields = response.extra_headers();
    let body = response.into_body();
    let ghost typed: int = if body.mime().len() == 0 {
        0
    } else {
        1
    };
    let r = match response_headers(body.content_type(), &fields) {
        Ok(headers) => Ok(Sent { status, headers, body: WriteBody::new(body) }),
        Err(error) => Err(error),
    };
    assert(sent_as(status, fields.listed(), body, r));
    proof {
        let listed = fields.listed();
        let extra = fields@;
        law_response_is_sent_with_exactly_its_headers(body.mime(), listed, extra);
        assert forall|id: Seq<char>| #[trigger] extra.contains_key(id) implies exists|i: int|
            0 <= i < listed.len() && field_of(#[trigger] listed[i]) == extra[id] by {
            let i = choose|i: int| keyed_at(listed, id, i);
            lemma_listed_field(listed, i);
            assert(field_of(listed[i]) == extra[id]);
        }
        if r is Ok {
            let sent = r->Ok_0;
            assert forall|id: Seq<char>| #[trigger] extra.contains_key(id) implies exists|j: int|
                {
                    &&& typed <= j < sent.headers@.len()
                    &&& header_name(extra[id].name) == Some((#[trigger] sent.headers@[j]).0@)
                    &&& sent.headers@[j].1@ == extra[id].value
                } by {
                let i = choose|i: int|
                    0 <= i < listed.len() && field_of(#[trigger] listed[i]) == extra[id];
                assert(header_name(listed[i].0.text()) == Some(sent.headers@[typed + i].0@));
            }
        }
    }
    r
}

/// Whether `sent` is how a response with this status, these headers and this body is
/// sent.
pub open spec fn sent_as<R: ResponseBody>(
    status: StatusCode,
    fields: Seq<(StringId, String)>,
    body: R,
    sent: Result<Sent<R>, HeaderError>,
) -> bool {
    match sent_headers(body.mime(), fields) {
        Ok(headers) => {
            &&& sent matches Ok(response)
            &&& response.status == status
            &&& header_views(response.headers@) == headers
            &&& response.body.write == body
            &&& filled(response.body.buf) == Seq::<u8>::empty()
        },
        Err(error) => sent == Err::<Sent<R>, HeaderError>(error),
    }
}

/// Whatever is sent has the status and the body of the response, of which no byte was
/// sent yet.
pub proof fn law_sent_response_has_its_status_and_body<R: ResponseBody>(
    status: StatusCode,
    fields: Seq<(StringId, String)>,
    body: R,
    sent: Sent<R>,
)
    requires
        sent_as(status, fields, body, Ok::<Sent<R>, HeaderError>(sent)),
    ensures
        sent.status == status,
        sent.body.write == body,
        filled(sent.body.buf).len() == 0,
        sent_headers(body.mime(), fields) == Ok::<Seq<(Seq<char>, Seq<char>)>, HeaderError>(
            header_views(sent.headers@),
        ),
{
}

/// A header that is sent for a field has the value of the field as it is, and the name of
/// the field as a header name.
pub proof fn law_header_has_the_value_of_its_field(field: FieldView, headers: Seq<(String, String)>)
    ensures
        match header_of(field) {
            Some((name, value)) => header_name(field.name) == Some(name) && value == field.value
                && header_value(value),
            None => header_name(field.name) is None || !header_value(field.value),
        },
        header_views(headers).len() == headers.len(),
        forall|i: int|
            0 <= i < headers.len() ==> #[trigger] header_views(headers)[i] == (
                headers[i].0@,
                headers[i].1@,
            ),
{
}

/// A body that is sent frame by frame, through a buffer.
pub struct WriteBody<R> {
    pub write: R,
    pub buf: BytesMut,
}

/// The number of bytes below which the buffer is made larger.
pub const LOW: usize = 4096;

/// The number of bytes that the buffer is made to hold.
pub const FULL: usize = 8192;

/// The room for the next frame in a buffer with `len` bytes.
pub open spec fn room_in(len: int) -> int {
    if len < LOW {
        FULL as int
    } else {
        len
    }
}

/// There is always room for a frame: the buffer as it is if it has not become low, and
/// else that of a full one.
pub proof fn law_there_is_room_for_a_frame(len: int)
    ensures
        len < 4096 ==> room_in(len) == 8192,
        len >= 4096 ==> room_in(len) == len,
{
}

impl<R> WriteBody<R> {
    /// A body of which nothing was sent yet.
    pub fn new(write: R) -> (r: Self)
        ensures
            r.write == write,
            filled(r.buf) == Seq::<u8>::empty(),
    {
        WriteBody { write, buf: BytesMut::new() }
    }

    /// Makes room for the next frame, and says how much there is: never less than
    /// [`LOW`] bytes.
    pub fn make_room(&mut self) -> (r: usize)
        ensures
            final(self).write == old(self).write,
            r == filled(final(self).buf).len(),
            r == room_in(filled(old(self).buf).len() as int),
            r >= LOW,
    {
        if self.buf.len() < LOW {
            self.buf.resize(FULL, 0);
        }
        self.buf.len()
    }

    /// The next frame, from what was read into the buffer: no bytes end the body.
    pub fn frame(&mut self, read: &[u8]) -> (r: Option<BytesMut>)
        requires
            read@.len() <= filled(old(self).buf).len(),
        ensures
            final(self).write == old(self).write,
            filled(final(self).buf).len() == filled(old(self).buf).len() - read@.len(),
            match r {
                Some(frame) => read@.len() > 0 && filled(frame) == read@,
                None => read@.len() == 0,
            },
    {
        if read.len() == 0 {
            return None;
        }
        buffers::overwrite(&mut self.buf, read);
        let frame = self.buf.split_to(read.len());
        assert(filled(frame) =~= read@);
        Some(frame)
    }
}

impl<R: ResponseBody> WriteBody<R> {
    /// The exact size of the body, if it is known.
    pub fn size_hint(&self) -> (r: Option<u64>)
        ensures
            r == self.write.size(),
    {
        self.write.length()
    }
}

impl<R: BufferedBody> WriteBody<R> {
    /// The next frame of a body whose bytes are all there.
    pub fn poll_frame(&mut self) -> (r: Option<BytesMut>)
        ensures
            ({
                let rest = old(self).write.rest();
                let n = least(room_in(filled(old(self).buf).len() as int), rest.len() as int);
                &&& match r {
                    Some(frame) => rest.len() > 0 && filled(frame) == rest.take(n),
                    None => rest.len() == 0,
                }
                &&& final(self).write.rest() == rest.skip(n)
                &&& filled(final(self).buf).len() == room_in(filled(old(self).buf).len() as int) - n
            }),
    {
        let room: usize = self.make_room();
        let read = self.write.poll_read(room);
        self.frame(read.as_slice())
    }
}

/// The bytes that the frames of a body give until it ends, with a buffer of `len`
/// bytes.
pub open spec fn sent_bytes(rest: Seq<u8>, len: int) -> Seq<u8>
    decreases rest.len(),
{
    let n = least(room_in(len), rest.len() as int);
    if n <= 0 {
        Seq::empty()
    } else {
        rest.take(n) + sent_bytes(rest.skip(n), room_in(len) - n)
    }
}

/// The frames of a body whose bytes are all there give its bytes in their order, and
/// all of them.
pub proof fn law_frames_give_the_body(rest: Seq<u8>, len: int)
    requires
        0 <= len,
    ensures
        sent_bytes(rest, len) == rest,
    decreases rest.len(),
{
    let n = least(room_in(len), rest.len() as int);
    if n > 0 {
        law_frames_give_the_body(rest.skip(n), room_in(len) - n);
        assert(rest.take(n) + rest.skip(n) =~= rest);
    } else {
        assert(rest =~= Seq::empty());
    }
}

/// A URL to listen on, by what listening needs of it.
pub struct ListenUrl {
    pub host: Option<String>,
    /// The port, or that of the scheme.
    pub port: Option<u16>,
    /// The URL as a message shows it.
    pub shown: String,
}

/// Why a server cannot listen.
pub enum ListenError {
    /// No URL is given, for this reason.
    Missing(String),
    /// The text that is shown is no URL, for this reason.
    Url { shown: String, reason: String },
    /// The URL that is shown has no host.
    Hostname(String),
    /// The URL that is shown has no port, and its scheme has no known one.
    Port(String),
}

impl ListenError {
    /// The message of the error.
    pub open spec fn told(self) -> Seq<char> {
        match self {
            ListenError::Missing(reason) => "Missing var LISTEN: "@ + reason@,
            ListenError::Url { shown, reason } => "Bad LISTEN url ("@ + shown@ + "): "@ + reason@,
            ListenError::Hostname(shown) => "Bad hostname for url "@ + shown@,
            ListenError::Port(shown) => "Bad port number for url "@ + shown@,
        }
    }

    /// The message of the error.
    pub fn message(&self) -> (r: String)
        ensures
            r@ == self.told(),
    {
        match self {
            ListenError::Missing(reason) => {
                let mut message: String = "Missing var LISTEN: ".to_owned();
                message.append(reason.as_str());
                message
            },
            ListenError::Url { shown, reason } => {
                let mut message: String = "Bad LISTEN url (".to_owned();
                message.append(shown.as_str());
                message.append("): ");
                message.append(reason.as_str());
                message
            },
            ListenError::Hostname(shown) => {
                let mut message: String = "Bad hostname for url ".to_owned();
                message.append(shown.as_str());
                message
            },
            ListenError::Port(shown) => {
                let mut message: String = "Bad port number for url ".to_owned();
                message.append(shown.as_str());
                message
            },
        }
    }
}

/// Each error says what is wrong with the URL.
pub proof fn law_listen_errors_say_what_is_wrong(shown: String, reason: String)
    ensures
        ListenError::Missing(reason).told() == "Missing var LISTEN: "@ + reason@,
        (ListenError::Url { shown, reason }).told() == "Bad LISTEN url ("@ + shown@ + "): "@
            + reason@,
        ListenError::Hostname(shown).told() == "Bad hostname for url "@ + shown@,
        ListenError::Port(shown).told() == "Bad port number for url "@ + shown@,
{
}

/// The host, the port and the shown form of the URL that a text is, or why it is none.
pub uninterp spec fn url_parts(text: Seq<char>) -> Result<
    (Option<Seq<char>>, Option<u16>, Seq<char>),
    Seq<char>,
>;

/// What a URL to listen on, or a reason, shows.
pub open spec fn url_parts_of(url: Result<ListenUrl, String>) -> Result<
    (Option<Seq<char>>, Option<u16>, Seq<char>),
    Seq<char>,
> {
    match url {
        Ok(url) => Ok((uri_subject::text_of(url.host), url.port, url.shown@)),
        Err(reason) => Err(reason@),
    }
}

/// `url::Url` parses the text; its `host_str` gives the host, its
/// `port_or_known_default` the port or that of its scheme, and its `Debug` the form in
/// which it is shown.
#[verifier::external_body]
pub(crate) fn parse_url(text: &str) -> (r: Result<ListenUrl, String>)
    ensures
        url_parts_of(r) == url_parts(text@),
{
    match text.parse::<url::Url>() {
        Ok(url) => Ok(
            ListenUrl {
                host: url.host_str().map(|host| host.to_owned()),
                port: url.port_or_known_default(),
                shown: format!("{url:?}"),
            },
        ),
        Err(error) => Err(error.to_string()),
    }
}

/// The URL to listen on that a text such as `http://0.0.0.0:8080` is, or why it is none.
pub fn listen_url(listen: &str) -> (r: Result<ListenUrl, String>)
    ensures
        url_parts_of(r) == url_parts(listen@),
{
    parse_url(listen)
}

/// The address that a URL says to listen on. A missing host is told before a missing
/// port.
pub fn address_of(url: ListenUrl) -> (r: Result<(String, u16), ListenError>)
    ensures
        r == match (url.host, url.port) {
            (Some(host), Some(port)) => Ok((host, port)),
            (None, _) => Err(ListenError::Hostname(url.shown)),
            (Some(_), None) => Err(ListenError::Port(url.shown)),
        },
{
    match (url.host, url.port) {
        (Some(host), Some(port)) => Ok((host, port)),
        (None, _) => Err(ListenError::Hostname(url.shown)),
        (Some(_), None) => Err(ListenError::Port(url.shown)),
    }
}

} // verus!
