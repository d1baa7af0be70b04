//! Requests, responses and the case-insensitive keys that routing compares.
use crate::buffers;
#[allow(unused_imports)]
use crate::buffers::{filled, held};
use crate::fields::Fields;
#[allow(unused_imports)]
use crate::fields::{single, FieldView};
use crate::http;
use crate::http::{Method, MethodView, StatusCode};
use crate::json::Document;
use crate::text;
#[allow(unused_imports)]
use crate::text::lowercase;
use bytes::{Bytes, BytesMut};
use std::borrow::Cow;
use std::cmp::Ordering;
use std::collections::VecDeque;
#[allow(unused_imports)]
use vstd::std_specs::cmp::{PartialEqSpec, PartialOrdSpec};
#[allow(unused_imports)]
use vstd::utf8::encode_utf8;
use vstd::prelude::*;

verus! {

/// A string that compares **case-insensitively** while preserving its original
/// casing.
pub enum StringId {
    /// An owned string that was already lowercase; the text is its own id.
    Same(String),
    /// An owned mixed-case string paired with its lowercased id.
    OriginalAndId(String, String),
    /// A `&'static str` that was already lowercase; the text is its own id.
    Static(&'static str),
    /// A `&'static str` with mixed case paired with its lowercased id.
    StaticAndId(&'static str, String),
}

impl StringId {
    /// The original text.
    pub open spec fn text(self) -> Seq<char> {
        match self {
            StringId::Same(text) => text@,
            StringId::OriginalAndId(text, _) => text@,
            StringId::Static(text) => text@,
            StringId::StaticAndId(text, _) => text@,
        }
    }

    /// The text that is compared.
    pub open spec fn ident(self) -> Seq<char> {
        match self {
            StringId::Same(id) => id@,
            StringId::OriginalAndId(_, id) => id@,
            StringId::Static(id) => id@,
            StringId::StaticAndId(_, id) => id@,
        }
    }

    /// The id is the lowercase equivalent of the text.
    pub open spec fn wf(self) -> bool {
        self.ident() == lowercase(self.text())
    }

    /// A well-formed key made from `text`.
    pub open spec fn made_from(self, text: Seq<char>) -> bool {
        &&& self.wf()
        &&& self.text() == text
    }

    /// Build a `StringId` from a borrowed string, copying it into an owned
    /// value.
    pub fn new(id: &str) -> (r: Self)
        ensures
            r.made_from(id@),
            r.text() == id@,
            r.ident() == lowercase(id@),
            lowercase(id@) == id@ <==> r is Same,
            lowercase(id@) != id@ <==> r is OriginalAndId,
    {
        Self::from(id.to_owned())
    }

    /// The lowercased identity used for comparison and ordering.
    pub fn id(&self) -> (r: &str)
        ensures
            r@ == self.ident(),
    {
        match self {
            StringId::Same(id) => id.as_str(),
            StringId::OriginalAndId(_, id) => id.as_str(),
            StringId::Static(id) => *id,
            StringId::StaticAndId(_, id) => id.as_str(),
        }
    }
}

/// Takes ownership of `value`. If it is already lowercase no extra allocation
/// is made; otherwise a lowercased id is computed alongside it.
impl From<String> for StringId {
    fn from(value: String) -> (r: Self)
        ensures
            r.made_from(value@),
            r.text() == value@,
            r.ident() == lowercase(value@),
            lowercase(value@) == value@ ==> r == StringId::Same(value),
            lowercase(value@) != value@ ==> (r matches StringId::OriginalAndId(text, _) && text
                == value),
    {
        if text::is_settled(value.as_str()) {
            return Self::Same(value);
        }
        let id = text::to_lowercase(value.as_str());
        if text::same(id.as_str(), value.as_str()) {
            return Self::Same(value);
        }
        Self::OriginalAndId(value, id)
    }
}

impl vstd::std_specs::convert::FromSpecImpl<String> for StringId {
    open spec fn obeys_from_spec() -> bool {
        false
    }

    open spec fn from_spec(v: String) -> Self {
        arbitrary()
    }
}

/// Borrows a string literal without allocating when it is already lowercase;
/// only a mixed-case literal needs an owned lowercased id.
impl From<&'static str> for StringId {
    fn from(value: &'static str) -> (r: Self)
        ensures
            r.made_from(value@),
            r.text() == value@,
            r.ident() == lowercase(value@),
            lowercase(value@) == value@ ==> r == StringId::Static(value),
            lowercase(value@) != value@ ==> (r matches StringId::StaticAndId(text, _) && text
                == value),
    {
        if text::is_settled(value) {
            return Self::Static(value);
        }
        let id = text::to_lowercase(value);
        if text::same(id.as_str(), value) {
            return Self::Static(value);
        }
        Self::StaticAndId(value, id)
    }
}

impl vstd::std_specs::convert::FromSpecImpl<&'static str> for StringId {
    open spec fn obeys_from_spec() -> bool {
        false
    }

    open spec fn from_spec(v: &'static str) -> Self {
        arbitrary()
    }
}

impl std::ops::Deref for StringId {
    type Target = str;

    fn deref(&self) -> (r: &str)
        ensures
            r@ == self.text(),
    {
        match self {
            StringId::Same(text) => text.as_str(),
            StringId::OriginalAndId(text, _) => text.as_str(),
            StringId::Static(text) => *text,
            StringId::StaticAndId(text, _) => *text,
        }
    }
}

impl Clone for StringId {
    fn clone(&self) -> (r: Self)
        ensures
            r == *self,
    {
        match self {
            StringId::Same(text) => StringId::Same(text.clone()),
            StringId::OriginalAndId(text, id) => StringId::OriginalAndId(text.clone(), id.clone()),
            StringId::Static(text) => StringId::Static(*text),
            StringId::StaticAndId(text, id) => StringId::StaticAndId(*text, id.clone()),
        }
    }
}

impl PartialEq for StringId {
    fn eq(&self, other: &Self) -> (r: bool) {
        text::same(self.id(), other.id())
    }
}

impl vstd::std_specs::cmp::PartialEqSpecImpl for StringId {
    open spec fn obeys_eq_spec() -> bool {
        true
    }

    open spec fn eq_spec(&self, other: &Self) -> bool {
        self.ident() == other.ident()
    }
}

impl Eq for StringId {

}

impl PartialEq<&str> for StringId {
    fn eq(&self, other: &&str) -> (r: bool) {
        text::same(self.id(), text::to_lowercase(*other).as_str())
    }
}

impl vstd::std_specs::cmp::PartialEqSpecImpl<&str> for StringId {
    open spec fn obeys_eq_spec() -> bool {
        true
    }

    open spec fn eq_spec(&self, other: &&str) -> bool {
        self.ident() == lowercase((*other)@)
    }
}

impl PartialEq<&str> for &StringId {
    fn eq(&self, other: &&str) -> (r: bool) {
        text::same(self.id(), text::to_lowercase(*other).as_str())
    }
}

impl vstd::std_specs::cmp::PartialEqSpecImpl<&str> for &StringId {
    open spec fn obeys_eq_spec() -> bool {
        true
    }

    open spec fn eq_spec(&self, other: &&str) -> bool {
        self.ident() == lowercase((*other)@)
    }
}

impl PartialOrd for StringId {
    fn partial_cmp(&self, other: &Self) -> (r: Option<Ordering>) {
        match text::order(self.id(), other.id()) {
            text::Order::Less => Some(Ordering::Less),
            text::Order::Equal => Some(Ordering::Equal),
            text::Order::Greater => Some(Ordering::Greater),
        }
    }
}

impl vstd::std_specs::cmp::PartialOrdSpecImpl for StringId {
    open spec fn obeys_partial_cmp_spec() -> bool {
        true
    }

    open spec fn partial_cmp_spec(&self, other: &Self) -> Option<Ordering> {
        match text::ordered(self.ident(), other.ident()) {
            text::Order::Less => Some(Ordering::Less),
            text::Order::Equal => Some(Ordering::Equal),
            text::Order::Greater => Some(Ordering::Greater),
        }
    }
}

impl StringId {
    /// The order of two keys: that of their ids.
    pub fn cmp(&self, other: &Self) -> (r: Ordering)
        ensures
            Some(r) == self.partial_cmp_spec(other),
            r is Less <==> text::ordered(self.ident(), other.ident()) == text::Order::Less,
            r is Equal <==> self.ident() == other.ident(),
            r is Greater <==> text::ordered(self.ident(), other.ident()) == text::Order::Greater,
    {
        proof {
            text::law_order_agrees_with_equality(self.ident(), other.ident());
        }
        match text::order(self.id(), other.id()) {
            text::Order::Less => Ordering::Less,
            text::Order::Equal => Ordering::Equal,
            text::Order::Greater => Ordering::Greater,
        }
    }
}

/// `<str as std::hash::Hash>::hash` feeds a text to a hasher. What that does to the
/// hasher is the hasher's own affair.
#[verifier::external_body]
fn feed<H: std::hash::Hasher>(text: &str, state: &mut H) {
    std::hash::Hash::hash(text, state)
}

/// Whether `state` can be borrowed from a hasher that is fed `text` and nothing else.
pub closed spec fn fed<H: std::hash::Hasher>(text: Seq<char>, state: &mut H) -> bool {
    exists|given: &str| given@ == text && #[trigger] call_ensures(feed::<H>, (given, state), ())
}

/// A key is hashed as its id, so that equal keys have equal hashes.
impl std::hash::Hash for StringId {
    fn hash<H: std::hash::Hasher>(&self, state: &mut H)
        ensures
            exists|borrowed: &mut H|
                *borrowed == *old(state) && *final(borrowed) == *final(state) && #[trigger] fed(
                    self.ident(),
                    borrowed,
                ),
    {
        let id = self.id();
        assert forall|borrowed: &mut H| #[trigger]
            call_ensures(feed::<H>, (id, borrowed), ()) implies fed(self.ident(), borrowed) by {}
        let feeding = feed::<H>;
        feeding(id, state)
    }
}

/// Two keys are the same exactly if their texts have one lowercase equivalent; the
/// order of keys agrees with that.
pub proof fn law_keys_ignore_case(a: StringId, b: StringId)
    requires
        a.wf(),
        b.wf(),
    ensures
        a.eq_spec(&b) <==> lowercase(a.text()) == lowercase(b.text()),
        a.eq_spec(&b) <==> a.partial_cmp_spec(&b) == Some(Ordering::Equal),
{
    text::law_order_agrees_with_equality(a.ident(), b.ident());
}

/// The order of keys is total, and goes by their ids alone: how a key holds its text
/// plays no part.
pub proof fn law_keys_are_totally_ordered(a: StringId, b: StringId, c: StringId)
    ensures
        a.partial_cmp_spec(&b) is Some,
        a.partial_cmp_spec(&b) == Some(Ordering::Equal) <==> a.eq_spec(&b),
        a.partial_cmp_spec(&b) == Some(Ordering::Less) <==> b.partial_cmp_spec(&a) == Some(
            Ordering::Greater,
        ),
        a.partial_cmp_spec(&b) == Some(Ordering::Less) && b.partial_cmp_spec(&c) == Some(
            Ordering::Less,
        ) ==> a.partial_cmp_spec(&c) == Some(Ordering::Less),
        a.ident() == b.ident() ==> a.partial_cmp_spec(&c) == b.partial_cmp_spec(&c),
{
    text::law_order_agrees_with_equality(a.ident(), b.ident());
    text::law_order_turns_round(a.ident(), b.ident());
    if text::ordered(a.ident(), b.ident()) == text::Order::Less && text::ordered(
        b.ident(),
        c.ident(),
    ) == text::Order::Less {
        text::law_order_is_transitive(a.ident(), b.ident(), c.ident());
    }
}

/// Equal keys feed a hasher the same.
pub proof fn law_equal_keys_hash_alike<H: std::hash::Hasher>(
    a: StringId,
    b: StringId,
    state: &mut H,
)
    requires
        a.eq_spec(&b),
    ensures
        fed(a.ident(), state) <==> fed(b.ident(), state),
{
}

/// A key holds the text that it was made of and the id that it is compared by; they are
/// one where only one is held.
pub proof fn law_key_holds_its_text_and_id(
    text: String,
    id: String,
    literal: &'static str,
)
    ensures
        StringId::Same(text).text() == text@,
        StringId::Same(text).ident() == text@,
        StringId::OriginalAndId(text, id).text() == text@,
        StringId::OriginalAndId(text, id).ident() == id@,
        StringId::Static(literal).text() == literal@,
        StringId::Static(literal).ident() == literal@,
        StringId::StaticAndId(literal, id).text() == literal@,
        StringId::StaticAndId(literal, id).ident() == id@,
{
}

/// A key made of a text has that text and its lowercase equivalent as the id.
pub proof fn law_made_key_is_the_text_and_its_lowercase(key: StringId, text: Seq<char>)
    ensures
        key.made_from(text) <==> key.text() == text && key.ident() == lowercase(text),
        key.wf() <==> key.ident() == lowercase(key.text()),
{
}

/// A key equals a text exactly if its id is the lowercase equivalent of the text; keys are
/// ordered as their ids are.
pub proof fn law_key_compares_by_its_id(key: StringId, other: StringId, text: &str)
    ensures
        key.eq_spec(&text) <==> key.ident() == lowercase(text@),
        (&key).eq_spec(&text) <==> key.ident() == lowercase(text@),
        key.eq_spec(&other) <==> key.ident() == other.ident(),
        key.partial_cmp_spec(&other) == Some(Ordering::Less) <==> text::ordered(
            key.ident(),
            other.ident(),
        ) == text::Order::Less,
        key.partial_cmp_spec(&other) == Some(Ordering::Greater) <==> text::ordered(
            key.ident(),
            other.ident(),
        ) == text::Order::Greater,
{
}

/// Two values of which one is there.
#[derive(Clone, Copy, Debug, PartialEq, Eq)]
pub enum Either<L, R> {
    Left(L),
    Right(R),
}

/// An HTTP request on its way through the routing tree.
pub struct Request<B> {
    pub method: Method,
    /// The path segments that are not consumed yet.
    pub path: VecDeque<StringId>,
    pub headers: Fields,
    pub query: Fields,
    pub body: B,
}

/// What a [`Request`] holds.
pub struct RequestView<B> {
    pub method: MethodView,
    pub path: Seq<StringId>,
    pub headers: Map<Seq<char>, FieldView>,
    pub query: Map<Seq<char>, FieldView>,
    pub body: B,
}

impl<B> View for Request<B> {
    type V = RequestView<B>;

    open spec fn view(&self) -> RequestView<B> {
        RequestView {
            method: self.method@,
            path: self.path@,
            headers: self.headers@,
            query: self.query@,
            body: self.body,
        }
    }
}

/// What a request shows is what it holds, field by field.
pub proof fn law_request_shows_what_it_holds<B>(request: Request<B>)
    ensures
        request@.method == request.method@,
        request@.path == request.path@,
        request@.headers == request.headers@,
        request@.query == request.query@,
        request@.body == request.body,
{
}

/// A frame of an incoming body.
pub enum Frame {
    Data(Bytes),
    /// Anything but data, such as trailers.
    Other,
}

/// The bytes of the data frames of a body, one after the other.
pub open spec fn collected(frames: Seq<Frame>) -> Seq<u8>
    decreases frames.len(),
{
    if frames.len() == 0 {
        Seq::empty()
    } else {
        match frames.last() {
            Frame::Data(data) => collected(frames.drop_last()) + held(data),
            Frame::Other => collected(frames.drop_last()),
        }
    }
}

/// A body is the data of its frames, in their order; other frames add nothing to it.
pub proof fn law_body_is_the_data_of_its_frames(frames: Seq<Frame>, data: Bytes)
    ensures
        collected(Seq::<Frame>::empty()) == Seq::<u8>::empty(),
        collected(frames.push(Frame::Data(data))) == collected(frames) + held(data),
        collected(frames.push(Frame::Other)) == collected(frames),
{
    assert(frames.push(Frame::Data(data)).drop_last() =~= frames);
    assert(frames.push(Frame::Other).drop_last() =~= frames);
}

/// Where the collecting of a body stands after a frame.
pub enum Collecting<E> {
    /// The body goes on; this is what was collected so far.
    More(BytesMut),
    /// The body has ended, or its transport has failed.
    Done(Result<BytesMut, E>),
}

/// Where the reading of the next chunk stands after a frame.
pub enum Reading<E> {
    /// The chunk is there; an empty one ends the body.
    Done(Result<Bytes, E>),
    /// The frame held no data: the next one is to be read.
    ReadOn,
}

impl<B> Request<B> {
    /// One step of collecting the body: data is appended to what was collected so
    /// far, other frames are passed over, and an error ends the collecting. `None`
    /// stands for the end of the body.
    pub fn collect_body<E>(so_far: BytesMut, next: Option<Result<Frame, E>>) -> (r: Collecting<E>)
        requires
            next matches Some(Ok(Frame::Data(data))) ==> filled(so_far).len() + held(data).len()
                <= isize::MAX,
        ensures
            match next {
                Some(Ok(frame)) => r matches Collecting::More(after) && (forall|frames: Seq<Frame>|
                    filled(so_far) == collected(frames) ==> filled(after) == #[trigger] collected(
                        frames.push(frame),
                    )) && filled(after) == match frame {
                    Frame::Data(data) => filled(so_far) + held(data),
                    Frame::Other => filled(so_far),
                },
                Some(Err(error)) => r == Collecting::Done(Err::<BytesMut, E>(error)),
                None => r == Collecting::Done(Ok::<BytesMut, E>(so_far)),
            },
    {
        match next {
            Some(Ok(frame)) => {
                proof {
                    assert forall|frames: Seq<Frame>|
                        (#[trigger] frames.push(frame)).drop_last() == frames by {
                        assert(frames.push(frame).drop_last() =~= frames);
                    }
                }
                let mut so_far = so_far;
                match frame {
                    Frame::Data(data) => {
                        so_far.extend_from_slice(buffers::slice_of(&data));
                    },
                    Frame::Other => {},
                }
                Collecting::More(so_far)
            },
            Some(Err(error)) => Collecting::Done(Err(error)),
            None => Collecting::Done(Ok(so_far)),
        }
    }

    /// One step of reading the next chunk of the body. `None` stands for the end of
    /// the body, which reads as an empty chunk.
    pub fn next_chunk<E>(next: Option<Result<Frame, E>>) -> (r: Reading<E>)
        ensures
            match next {
                Some(Ok(Frame::Data(data))) => r == Reading::Done(Ok::<Bytes, E>(data)),
                Some(Ok(Frame::Other)) => r == Reading::<E>::ReadOn,
                Some(Err(error)) => r == Reading::Done(Err::<Bytes, E>(error)),
                None => r matches Reading::Done(Ok(end)) && held(end) == Seq::<u8>::empty(),
            },
    {
        match next {
            Some(Ok(Frame::Data(data))) => Reading::Done(Ok(data)),
            Some(Ok(Frame::Other)) => Reading::ReadOn,
            Some(Err(error)) => Reading::Done(Err(error)),
            None => Reading::Done(Ok(Bytes::new())),
        }
    }
}

/// The scheme and the parameters of an `Authorization` header.
#[derive(Clone, PartialEq, Eq, PartialOrd)]
pub struct Authorization {
    pub scheme: StringId,
    pub params: String,
}

/// The scheme and the parameters that a header value is read as: cut at the first
/// space of the trimmed value, or all of the value as the scheme.
pub open spec fn authorization_parts(value: Seq<char>) -> (Seq<char>, Seq<char>) {
    match text::cut(text::trimmed(value), ' ') {
        Some((scheme, params)) => (scheme, params),
        None => (value, Seq::empty()),
    }
}

impl From<String> for Authorization {
    fn from(value: String) -> (r: Self)
        ensures
            r.scheme.made_from(authorization_parts(value@).0),
            r.params@ == authorization_parts(value@).1,
    {
        match text::split_once(text::trim(value.as_str()), ' ') {
            Some((scheme, params)) => Self { scheme: StringId::from(scheme), params },
            None => Self { scheme: StringId::from(value), params: String::new() },
        }
    }
}

impl vstd::std_specs::convert::FromSpecImpl<String> for Authorization {
    open spec fn obeys_from_spec() -> bool {
        false
    }

    open spec fn from_spec(v: String) -> Self {
        arbitrary()
    }
}

/// A header value with a space inside is the scheme, a space and the parameters, with
/// white space round them; the scheme holds no space. Any other value is all scheme.
pub proof fn law_authorization_is_scheme_and_parameters(value: Seq<char>)
    ensures
        ({
            let (scheme, params) = authorization_parts(value);
            if text::trimmed(value).contains(' ') {
                text::trimmed(value) == scheme + seq![' '] + params && !scheme.contains(' ')
            } else {
                scheme == value && params.len() == 0
            }
        }),
{
    text::law_cut_parts_the_text(text::trimmed(value), ' ');
}

/// The body of a [`Response`]: the metadata needed to frame a stream of bytes.
pub trait ResponseBody {
    /// The MIME type of the body; each implementation says what it is.
    open spec fn mime(&self) -> Seq<char> {
        arbitrary()
    }

    /// The length of the body, if it is known; each implementation says what it is.
    open spec fn size(&self) -> Option<u64> {
        arbitrary()
    }

    /// The MIME type for the `Content-Type` header; an empty string omits the
    /// header.
    fn content_type(&self) -> (r: Cow<'static, str>)
        ensures
            r@ == self.mime(),
    ;

    /// The body length in bytes if known ahead of time, else `None` for a
    /// streamed body of unknown size.
    fn length(&self) -> (r: Option<u64>)
        ensures
            r == self.size(),
    ;
}

/// A [`ResponseBody`] whose bytes are all there, to be read piece by piece.
pub trait BufferedBody: ResponseBody {
    /// The bytes that were not read yet; each implementation says which.
    open spec fn rest(&self) -> Seq<u8> {
        arbitrary()
    }

    /// Reads at most `room` bytes. Nothing is read only where there is no room or
    /// where the body has ended.
    fn poll_read(&mut self, room: usize) -> (r: Vec<u8>)
        ensures
            r@ == old(self).rest().take(least(room as int, old(self).rest().len() as int)),
            final(self).rest() == old(self).rest().skip(
                least(room as int, old(self).rest().len() as int),
            ),
            final(self).mime() == old(self).mime(),
    ;
}

/// The lesser of two numbers.
pub open spec fn least(a: int, b: int) -> int {
    if a <= b {
        a
    } else {
        b
    }
}

/// The lesser of two numbers is one of them, and not more than either.
pub proof fn law_least_is_the_lesser(a: int, b: int)
    ensures
        least(a, b) <= a,
        least(a, b) <= b,
        least(a, b) == a || least(a, b) == b,
{
}

/// An empty [`ResponseBody`]: zero bytes and no content type.
pub struct NoBody;

impl ResponseBody for NoBody {
    open spec fn mime(&self) -> Seq<char> {
        Seq::empty()
    }

    open spec fn size(&self) -> Option<u64> {
        Some(0)
    }

    fn content_type(&self) -> (r: Cow<'static, str>) {
        proof {
            reveal_strlit("");
        }
        assert(""@ =~= Seq::<char>::empty());
        Cow::Borrowed("")
    }

    fn length(&self) -> (r: Option<u64>) {
        Some(0)
    }
}

impl BufferedBody for NoBody {
    open spec fn rest(&self) -> Seq<u8> {
        Seq::empty()
    }

    fn poll_read(&mut self, room: usize) -> (r: Vec<u8>) {
        let r: Vec<u8> = Vec::new();
        assert(r@ =~= Seq::<u8>::empty().take(0));
        assert(Seq::<u8>::empty().skip(0) =~= Seq::<u8>::empty());
        r
    }
}

/// A [`ResponseBody`] that is one of two body types, chosen at runtime.
pub struct EitherBody<T1, T2>(pub Either<T1, T2>);

impl<T1, T2> From<Either<T1, T2>> for EitherBody<T1, T2> {
    fn from(value: Either<T1, T2>) -> (r: Self) {
        EitherBody(value)
    }
}

impl<T1, T2> vstd::std_specs::convert::FromSpecImpl<Either<T1, T2>> for EitherBody<T1, T2> {
    open spec fn obeys_from_spec() -> bool {
        true
    }

    open spec fn from_spec(v: Either<T1, T2>) -> Self {
        EitherBody(v)
    }
}

impl<T1: ResponseBody, T2: ResponseBody> ResponseBody for EitherBody<T1, T2> {
    open spec fn mime(&self) -> Seq<char> {
        match self.0 {
            Either::Left(body) => body.mime(),
            Either::Right(body) => body.mime(),
        }
    }

    open spec fn size(&self) -> Option<u64> {
        match self.0 {
            Either::Left(body) => body.size(),
            Either::Right(body) => body.size(),
        }
    }

    fn content_type(&self) -> (r: Cow<'static, str>) {
        match &self.0 {
            Either::Left(body) => body.content_type(),
            Either::Right(body) => body.content_type(),
        }
    }

    fn length(&self) -> (r: Option<u64>) {
        match &self.0 {
            Either::Left(body) => body.length(),
            Either::Right(body) => body.length(),
        }
    }
}

impl<T1: BufferedBody, T2: BufferedBody> BufferedBody for EitherBody<T1, T2> {
    open spec fn rest(&self) -> Seq<u8> {
        match self.0 {
            Either::Left(body) => body.rest(),
            Either::Right(body) => body.rest(),
        }
    }

    fn poll_read(&mut self, room: usize) -> (r: Vec<u8>) {
        match &mut self.0 {
            Either::Left(body) => body.poll_read(room),
            Either::Right(body) => body.poll_read(room),
        }
    }
}

/// A [`ResponseBody`] backed by fully-buffered bytes with a fixed content type
/// and known length.
pub struct FullBody(pub Bytes, pub Cow<'static, str>);

impl ResponseBody for FullBody {
    open spec fn mime(&self) -> Seq<char> {
        self.1@
    }

    open spec fn size(&self) -> Option<u64> {
        Some(held(self.0).len() as u64)
    }

    fn content_type(&self) -> (r: Cow<'static, str>) {
        match &self.1 {
            Cow::Borrowed(text) => Cow::Borrowed(*text),
            Cow::Owned(text) => Cow::Owned(text.clone()),
        }
    }

    fn length(&self) -> (r: Option<u64>) {
        Some(self.0.len() as u64)
    }
}

impl BufferedBody for FullBody {
    open spec fn rest(&self) -> Seq<u8> {
        held(self.0)
    }

    fn poll_read(&mut self, room: usize) -> (r: Vec<u8>) {
        let n: usize = if self.0.len() <= room {
            self.0.len()
        } else {
            room
        };
        let taken = self.0.split_to(n);
        vstd::slice::slice_to_vec(buffers::slice_of(&taken))
    }
}

impl FullBody {
    /// A JSON document.
    pub fn json(document: String) -> (r: Self)
        ensures
            held(r.0) == encode_utf8(document@),
            r.1@ == "application/json"@,
    {
        FullBody(buffers::encoded(document), Cow::Borrowed("application/json"))
    }
}

/// What the reads of a buffered body give in all, each with the room given for it.
pub open spec fn read_in_turn(rest: Seq<u8>, rooms: Seq<int>) -> Seq<u8>
    decreases rooms.len(),
{
    if rooms.len() == 0 {
        Seq::empty()
    } else {
        let n = least(rooms[0], rest.len() as int);
        rest.take(n) + read_in_turn(rest.skip(n), rooms.drop_first())
    }
}

/// Whatever room each read is given, the reads give the bytes of the body in their
/// order and none twice; enough room in all gives all of them.
pub proof fn law_reads_give_the_body(rest: Seq<u8>, rooms: Seq<int>)
    requires
        forall|i: int| 0 <= i < rooms.len() ==> #[trigger] rooms[i] >= 0,
    ensures
        read_in_turn(rest, rooms) == rest.take(least(total(rooms), rest.len() as int)),
        total(rooms) >= 0,
        total(rooms) >= rest.len() ==> read_in_turn(rest, rooms) == rest,
    decreases rooms.len(),
{
    assert(rest.take(rest.len() as int) =~= rest);
    if rooms.len() == 0 {
        assert(rest.take(0) =~= Seq::empty());
    } else {
        let n = least(rooms[0], rest.len() as int);
        let others = rooms.drop_first();
        assert forall|i: int| 0 <= i < others.len() implies #[trigger] others[i] >= 0 by {
            assert(others[i] == rooms[i + 1]);
        }
        law_reads_give_the_body(rest.skip(n), others);
        assert(rest.take(n) + rest.skip(n).take(least(total(others), rest.len() - n))
            =~= rest.take(least(total(rooms), rest.len() as int)));
    }
}

/// An empty body has no bytes and no content type.
pub proof fn law_empty_body_is_empty(body: NoBody)
    ensures
        body.rest().len() == 0,
        body.mime().len() == 0,
        body.size() == Some(0u64),
{
}

/// A buffered body is its bytes and its content type, and its length is theirs.
pub proof fn law_full_body_is_its_bytes(bytes: Bytes, mime: Cow<'static, str>)
    ensures
        FullBody(bytes, mime).rest() == held(bytes),
        FullBody(bytes, mime).mime() == mime@,
        held(bytes).len() <= u64::MAX ==> FullBody(bytes, mime).size() == Some(
            held(bytes).len() as u64,
        ),
{
}

/// A body that is one of two is the one that is there.
pub proof fn law_either_body_is_the_one_there<T1: BufferedBody, T2: BufferedBody>(
    first: T1,
    second: T2,
)
    ensures
        EitherBody::<T1, T2>(Either::Left(first)).rest() == first.rest(),
        EitherBody::<T1, T2>(Either::Left(first)).mime() == first.mime(),
        EitherBody::<T1, T2>(Either::Left(first)).size() == first.size(),
        EitherBody::<T1, T2>(Either::Right(second)).rest() == second.rest(),
        EitherBody::<T1, T2>(Either::Right(second)).mime() == second.mime(),
        EitherBody::<T1, T2>(Either::Right(second)).size() == second.size(),
{
}

/// A body that is one of two has the content type and the length of the one that is
/// there, also where its bytes are not all there.
pub proof fn law_either_body_is_framed_as_the_one_there<T1: ResponseBody, T2: ResponseBody>(
    first: T1,
    second: T2,
)
    ensures
        EitherBody::<T1, T2>(Either::Left(first)).mime() == first.mime(),
        EitherBody::<T1, T2>(Either::Left(first)).size() == first.size(),
        EitherBody::<T1, T2>(Either::Right(second)).mime() == second.mime(),
        EitherBody::<T1, T2>(Either::Right(second)).size() == second.size(),
{
}

/// The sum of some numbers.
pub open spec fn total(numbers: Seq<int>) -> int
    decreases numbers.len(),
{
    if numbers.len() == 0 {
        0
    } else {
        numbers[0] + total(numbers.drop_first())
    }
}

/// A value that can be turned into an HTTP response.
pub trait Response: Sized {
    /// The response body. See [`ResponseBody`].
    type Body: ResponseBody;

    /// The HTTP status code; each implementation says what it is.
    open spec fn status(&self) -> StatusCode {
        arbitrary()
    }

    /// The headers in addition to the content type; each implementation says which.
    open spec fn headers(&self) -> Map<Seq<char>, FieldView> {
        arbitrary()
    }

    /// Whether `body` is the body of the response; each implementation says when.
    open spec fn has_body(&self, body: Self::Body) -> bool {
        arbitrary()
    }

    /// The HTTP status code to send.
    fn status_code(&self) -> (r: StatusCode)
        ensures
            r == self.status(),
    ;

    /// Consume the response into its body.
    fn into_body(self) -> (r: Self::Body)
        ensures
            self.has_body(r),
    ;

    /// Headers to send in addition to the content type derived from the body.
    fn extra_headers(&self) -> (r: Fields)
        ensures
            r@ == self.headers(),
    ;
}

/// `std::io::Error`: an input or output error.
#[verifier::external_type_specification]
#[verifier::external_body]
pub struct ExIoError(std::io::Error);

/// Replies `500 Internal Server Error` with an empty body.
impl Response for std::io::Error {
    type Body = NoBody;

    open spec fn status(&self) -> StatusCode {
        StatusCode(http::INTERNAL_SERVER_ERROR)
    }

    open spec fn headers(&self) -> Map<Seq<char>, FieldView> {
        Map::empty()
    }

    open spec fn has_body(&self, body: NoBody) -> bool {
        true
    }

    fn status_code(&self) -> (r: StatusCode) {
        StatusCode(http::INTERNAL_SERVER_ERROR)
    }

    fn into_body(self) -> (r: NoBody) {
        NoBody
    }

    fn extra_headers(&self) -> (r: Fields) {
        Fields::new()
    }
}

/// Responds with the `Ok` value on success or the `Err` value on failure; both
/// sides are themselves responses.
impl<T: Response, E: Response> Response for Result<T, E> {
    type Body = EitherBody<T::Body, E::Body>;

    open spec fn status(&self) -> StatusCode {
        match self {
            Ok(response) => response.status(),
            Err(response) => response.status(),
        }
    }

    open spec fn headers(&self) -> Map<Seq<char>, FieldView> {
        match self {
            Ok(response) => response.headers(),
            Err(response) => response.headers(),
        }
    }

    open spec fn has_body(&self, body: EitherBody<T::Body, E::Body>) -> bool {
        match (self, body.0) {
            (Ok(response), Either::Left(body)) => response.has_body(body),
            (Err(response), Either::Right(body)) => response.has_body(body),
            _ => false,
        }
    }

    fn status_code(&self) -> (r: StatusCode) {
        match self {
            Ok(response) => response.status_code(),
            Err(response) => response.status_code(),
        }
    }

    fn into_body(self) -> (r: EitherBody<T::Body, E::Body>) {
        match self {
            Ok(response) => EitherBody(Either::Left(response.into_body())),
            Err(response) => EitherBody(Either::Right(response.into_body())),
        }
    }

    fn extra_headers(&self) -> (r: Fields) {
        match self {
            Ok(response) => response.extra_headers(),
            Err(response) => response.extra_headers(),
        }
    }
}

/// Responds with whichever variant is present.
impl<T1: Response, T2: Response> Response for Either<T1, T2> {
    type Body = EitherBody<T1::Body, T2::Body>;

    open spec fn status(&self) -> StatusCode {
        match self {
            Either::Left(response) => response.status(),
            Either::Right(response) => response.status(),
        }
    }

    open spec fn headers(&self) -> Map<Seq<char>, FieldView> {
        match self {
            Either::Left(response) => response.headers(),
            Either::Right(response) => response.headers(),
        }
    }

    open spec fn has_body(&self, body: EitherBody<T1::Body, T2::Body>) -> bool {
        match (self, body.0) {
            (Either::Left(response), Either::Left(body)) => response.has_body(body),
            (Either::Right(response), Either::Right(body)) => response.has_body(body),
            _ => false,
        }
    }

    fn status_code(&self) -> (r: StatusCode) {
        match self {
            Either::Left(response) => response.status_code(),
            Either::Right(response) => response.status_code(),
        }
    }

    fn into_body(self) -> (r: EitherBody<T1::Body, T2::Body>) {
        match self {
            Either::Left(response) => EitherBody(Either::Left(response.into_body())),
            Either::Right(response) => EitherBody(Either::Right(response.into_body())),
        }
    }

    fn extra_headers(&self) -> (r: Fields) {
        match self {
            Either::Left(response) => response.extra_headers(),
            Either::Right(response) => response.extra_headers(),
        }
    }
}

/// `Some` responds with the inner value; `None` replies `404 Not Found` with an
/// empty body.
impl<T: Response> Response for Option<T> {
    type Body = EitherBody<T::Body, NoBody>;

    open spec fn status(&self) -> StatusCode {
        match self {
            Some(response) => response.status(),
            None => StatusCode(http::NOT_FOUND),
        }
    }

    open spec fn headers(&self) -> Map<Seq<char>, FieldView> {
        match self {
            Some(response) => response.headers(),
            None => Map::empty(),
        }
    }

    open spec fn has_body(&self, body: EitherBody<T::Body, NoBody>) -> bool {
        match (self, body.0) {
            (Some(response), Either::Left(body)) => response.has_body(body),
            (None, Either::Right(_)) => true,
            _ => false,
        }
    }

    fn status_code(&self) -> (r: StatusCode) {
        match self {
            Some(response) => response.status_code(),
            None => StatusCode(http::NOT_FOUND),
        }
    }

    fn into_body(self) -> (r: EitherBody<T::Body, NoBody>) {
        match self {
            Some(response) => EitherBody(Either::Left(response.into_body())),
            None => EitherBody(Either::Right(NoBody)),
        }
    }

    fn extra_headers(&self) -> (r: Fields) {
        match self {
            Some(response) => response.extra_headers(),
            None => Fields::new(),
        }
    }
}

/// A [`Response`] from an explicit [`ResponseBody`] and [`StatusCode`].
pub struct HttpResponse<B>(pub B, pub StatusCode);

impl<B: ResponseBody> HttpResponse<B> {
    /// Construct an `HttpResponse` with status `200 OK`.
    pub fn h200(b: B) -> (r: Self)
        ensures
            r == HttpResponse(b, StatusCode(http::OK)),
    {
        HttpResponse(b, StatusCode(http::OK))
    }
}

impl<B: ResponseBody> Response for HttpResponse<B> {
    type Body = B;

    open spec fn status(&self) -> StatusCode {
        self.1
    }

    open spec fn headers(&self) -> Map<Seq<char>, FieldView> {
        Map::empty()
    }

    open spec fn has_body(&self, body: B) -> bool {
        body == self.0
    }

    fn status_code(&self) -> (r: StatusCode) {
        self.1
    }

    fn into_body(self) -> (r: B) {
        self.0
    }

    fn extra_headers(&self) -> (r: Fields) {
        Fields::new()
    }
}

/// A [`Response`] that replies `404 Not Found` with an empty body.
pub struct Empty404;

impl Response for Empty404 {
    type Body = NoBody;

    open spec fn status(&self) -> StatusCode {
        StatusCode(http::NOT_FOUND)
    }

    open spec fn headers(&self) -> Map<Seq<char>, FieldView> {
        Map::empty()
    }

    open spec fn has_body(&self, body: NoBody) -> bool {
        true
    }

    fn status_code(&self) -> (r: StatusCode) {
        StatusCode(http::NOT_FOUND)
    }

    fn into_body(self) -> (r: NoBody) {
        NoBody
    }

    fn extra_headers(&self) -> (r: Fields) {
        Fields::new()
    }
}

/// A JSON document as a response body.
pub open spec fn is_json(body: FullBody, document: Seq<char>) -> bool {
    &&& held(body.0) == encode_utf8(document)
    &&& body.1@ == "application/json"@
}

/// A [`Response`] that sends `T` as JSON with the given [`StatusCode`] and
/// `application/json` content type.
#[derive(Clone, Copy, Debug, PartialEq, Eq, PartialOrd, Ord, Hash)]
pub struct Json<T>(pub T, pub StatusCode);

impl<T> Json<T> {
    /// Construct a `Json` response with status `200 OK`.
    pub fn j200(t: T) -> (r: Self)
        ensures
            r == Json(t, StatusCode(http::OK)),
    {
        Json(t, StatusCode(http::OK))
    }
}

impl<T: Document> Response for Json<T> {
    type Body = FullBody;

    open spec fn status(&self) -> StatusCode {
        self.1
    }

    open spec fn headers(&self) -> Map<Seq<char>, FieldView> {
        Map::empty()
    }

    open spec fn has_body(&self, body: FullBody) -> bool {
        is_json(body, self.0.document())
    }

    fn status_code(&self) -> (r: StatusCode) {
        self.1
    }

    fn into_body(self) -> (r: FullBody) {
        let document = self.0.render();
        let body = FullBody::json(document);
        assert(Response::has_body(&self, body));
        body
    }

    fn extra_headers(&self) -> (r: Fields) {
        Fields::new()
    }
}

/// A `201 Created` [`Response`]: sends `T` as JSON and sets a `Location` header from
/// the new resource's [`ResourceLocation`].
#[derive(Clone, Debug, PartialEq, Eq, PartialOrd, Ord, Hash)]
pub struct Json201<T>(pub T);

impl<T: Document + ResourceLocation> Response for Json201<T> {
    type Body = FullBody;

    open spec fn status(&self) -> StatusCode {
        StatusCode(http::CREATED)
    }

    open spec fn headers(&self) -> Map<Seq<char>, FieldView> {
        single("Location"@, self.0.located_at())
    }

    open spec fn has_body(&self, body: FullBody) -> bool {
        is_json(body, self.0.document())
    }

    fn status_code(&self) -> (r: StatusCode) {
        StatusCode(http::CREATED)
    }

    fn into_body(self) -> (r: FullBody) {
        let code = self.status_code();
        Json(self.0, code).into_body()
    }

    fn extra_headers(&self) -> (r: Fields)
        ensures
            r.listed().len() == 1,
            r.listed()[0].0.made_from("Location"@),
            r.listed()[0].1@ == self.0.located_at(),
    {
        let mut headers = Fields::new();
        let _ = headers.insert(StringId::from("Location"), self.0.location());
        headers
    }
}

/// Supplies the URL of a created resource for the `Location` header of a
/// [`Json201`] response.
pub trait ResourceLocation {
    /// The full location; each implementation says what it is.
    open spec fn located_at(&self) -> Seq<char> {
        arbitrary()
    }

    /// The base path; each implementation says what it is.
    open spec fn base_path() -> Seq<char> {
        arbitrary()
    }

    /// The identifier; each implementation says what it is.
    open spec fn identifier(&self) -> Seq<char> {
        arbitrary()
    }

    /// The full location: most often [`default_location`] of
    /// [`base`](ResourceLocation::base) and
    /// [`resource_id`](ResourceLocation::resource_id).
    fn location(&self) -> (r: String)
        ensures
            r@ == self.located_at(),
    ;

    /// The base path under which resources of this type live (e.g. `/users/`).
    fn base() -> (r: &'static str)
        ensures
            r@ == Self::base_path(),
    ;

    /// This resource's identifier, appended to the base.
    fn resource_id(&self) -> (r: Cow<'_, str>)
        ensures
            r@ == self.identifier(),
    ;
}

/// The base of a resource followed by its id.
pub fn default_location(base: &str, id: Cow<'_, str>) -> (r: String)
    ensures
        r@ == base@ + id@,
{
    let mut out: String = base.to_owned();
    match id {
        Cow::Borrowed(id) => {
            out.append(id);
        },
        Cow::Owned(id) => {
            out.append(id.as_str());
        },
    }
    out
}

/// A result responds with the value or the error that is there: with its status, its
/// headers and its body.
pub proof fn law_result_responds_with_what_is_there<T: Response, E: Response>(
    value: T,
    error: E,
    body: EitherBody<T::Body, E::Body>,
)
    ensures
        Ok::<T, E>(value).status() == value.status(),
        Err::<T, E>(error).status() == error.status(),
        Ok::<T, E>(value).headers() == value.headers(),
        Err::<T, E>(error).headers() == error.headers(),
        Ok::<T, E>(value).has_body(body) <==> (body.0 matches Either::Left(inner)
            && value.has_body(inner)),
        Err::<T, E>(error).has_body(body) <==> (body.0 matches Either::Right(inner)
            && error.has_body(inner)),
{
}

/// Of two responses, the one that is there responds.
pub proof fn law_either_responds_with_what_is_there<T1: Response, T2: Response>(
    first: T1,
    second: T2,
    body: EitherBody<T1::Body, T2::Body>,
)
    ensures
        Either::<T1, T2>::Left(first).status() == first.status(),
        Either::<T1, T2>::Right(second).status() == second.status(),
        Either::<T1, T2>::Left(first).headers() == first.headers(),
        Either::<T1, T2>::Right(second).headers() == second.headers(),
        Either::<T1, T2>::Left(first).has_body(body) <==> (body.0 matches Either::Left(inner)
            && first.has_body(inner)),
        Either::<T1, T2>::Right(second).has_body(body) <==> (body.0 matches Either::Right(inner)
            && second.has_body(inner)),
{
}

/// An optional response is the response that is there, or `404` without a body and
/// without headers.
pub proof fn law_option_responds_or_is_not_found<T: Response>(
    response: T,
    body: EitherBody<T::Body, NoBody>,
)
    ensures
        Some(response).status() == response.status(),
        Some(response).headers() == response.headers(),
        Some(response).has_body(body) <==> (body.0 matches Either::Left(inner)
            && response.has_body(inner)),
        None::<T>.status() == StatusCode(404),
        None::<T>.headers() == Map::<Seq<char>, FieldView>::empty(),
        None::<T>.has_body(body) <==> body.0 is Right,
{
}

/// An explicit response has the body and the status that it was made with.
pub proof fn law_explicit_response_is_what_it_holds<B: ResponseBody>(
    body: B,
    status: StatusCode,
    other: B,
)
    ensures
        HttpResponse(body, status).status() == status,
        HttpResponse(body, status).headers() == Map::<Seq<char>, FieldView>::empty(),
        HttpResponse(body, status).has_body(other) <==> other == body,
{
}

/// A JSON response has the status that it was made with, and its body is the document of
/// its value as UTF-8, with the content type of JSON.
pub proof fn law_json_response_is_the_document<T: Document>(
    value: T,
    status: StatusCode,
    body: FullBody,
)
    ensures
        Json(value, status).status() == status,
        Json(value, status).headers() == Map::<Seq<char>, FieldView>::empty(),
        Json(value, status).has_body(body) <==> held(body.0) == encode_utf8(value.document())
            && body.1@ == "application/json"@,
        Json(value, status).has_body(body) ==> body.rest() == encode_utf8(value.document())
            && body.mime() == "application/json"@,
{
}

/// A response to the making of a resource is `201` with the document of the resource and
/// the one header `Location`, which says where it is.
pub proof fn law_created_response_says_where<T: Document + ResourceLocation>(
    value: T,
    body: FullBody,
)
    ensures
        Json201(value).status() == StatusCode(201),
        Json201(value).has_body(body) <==> held(body.0) == encode_utf8(value.document())
            && body.1@ == "application/json"@,
        forall|id: Seq<char>| #[trigger]
            Json201(value).headers().contains_key(id) <==> id == lowercase("Location"@),
        Json201(value).headers()[lowercase("Location"@)].name == "Location"@,
        Json201(value).headers()[lowercase("Location"@)].value == value.located_at(),
{
}

/// What is not there is `404`, and what failed is `500`; neither has a header.
pub proof fn law_plain_failures_have_their_status(missing: Empty404, failed: std::io::Error)
    ensures
        missing.status() == StatusCode(404),
        missing.headers() == Map::<Seq<char>, FieldView>::empty(),
        failed.status() == StatusCode(500),
        failed.headers() == Map::<Seq<char>, FieldView>::empty(),
{
}

} // verus!
