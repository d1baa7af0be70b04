use http_gateway::fields::Fields;
use http_gateway::handler::{
    BufferedBody, Collecting, Either, EitherBody, Empty404, Frame, FullBody, HttpResponse, Json,
    Json201, NoBody, Reading, Request, Response, ResponseBody,
};
use http_gateway::http::{Method, StatusCode};
use http_gateway::json::Document;
use http_gateway::server::{
    HeaderError, ListenError, ListenUrl, PanicResponse, RawHeader, WriteBody, address_of,
    extract_req_id, find_req_id, listen_url, response_headers, to_request, to_sent,
};
use http_gateway::uri_subject::Uri;
use bytes::{Bytes, BytesMut};
use std::borrow::Cow;

fn raw(name: &str, value: &[u8]) -> RawHeader {
    RawHeader {
        name: name.to_string(),
        value: value.to_vec(),
    }
}

fn read_all<B: BufferedBody>(mut body: B, room: usize) -> Vec<u8> {
    let mut all = Vec::new();
    loop {
        let read = body.poll_read(room);
        if read.is_empty() {
            return all;
        }
        assert!(read.len() <= room);
        all.extend(read);
    }
}

#[test]
fn methods_go_by_their_names() {
    for name in [
        "OPTIONS", "GET", "POST", "PUT", "DELETE", "HEAD", "TRACE", "CONNECT", "PATCH", "PURGE", "get",
    ] {
        assert_eq!(Method::from_name(name).name(), name);
        assert!(hyper::Method::from_bytes(name.as_bytes()).unwrap().as_str() == name);
    }
    assert!(Method::from_name("GET") == Method::Get);
    assert!(Method::from_name("get") == Method::Extension("get".to_string()));
    assert!(Method::from_name("get") != Method::Get);
}

#[test]
fn success_is_a_status_of_the_two_hundreds() {
    for code in 100..1000 {
        let expected = hyper::StatusCode::from_u16(code).unwrap().is_success();
        assert_eq!(StatusCode(code).is_success(), expected);
    }
}

#[test]
fn first_readable_request_id_counts() {
    let headers = vec![
        raw("accept", b"x"),
        raw("Req-Id", b"\xff"),
        raw("REQ-ID", b"one\ttwo"),
        raw("req-id", b"three"),
    ];
    assert_eq!(find_req_id(&headers), Some("one\ttwo".to_string()));
    assert_eq!(extract_req_id(&headers), "one\ttwo");
    assert_eq!(find_req_id(&vec![raw("req_id", b"x")]), None);
}

#[test]
fn a_request_without_an_id_gets_a_new_one() {
    let headers = vec![raw("req-id", b"\x7f")];
    let id = extract_req_id(&headers);
    assert_eq!(id.len(), 36);
    assert_eq!(id.as_bytes()[14], b'7');
    assert!(id.parse::<uuid::Uuid>().is_ok());
    assert!(id != extract_req_id(&headers));
}

#[test]
fn a_message_becomes_a_request() {
    let request = to_request(
        "PUT",
        Uri::parse("/a/B%20c?x=1").unwrap(),
        &vec![
            raw("Accept", b"first"),
            raw("req-id", b"id"),
            raw("Cookie", b"caf\xc3\xa9"),
            raw("accept", b"second"),
        ],
        (),
    );
    assert!(request.method == Method::Put);
    assert_eq!(
        request.path.iter().map(|s| &**s).collect::<Vec<_>>(),
        ["a", "B_c"]
    );
    assert_eq!(request.headers.len(), 1);
    assert_eq!(
        request.headers.get(&"ACCEPT".into()),
        Some(&"second".to_string())
    );
    assert_eq!(request.query.get(&"X".into()), Some(&"1".to_string()));
}

#[test]
fn bodies_are_collected_from_their_data() {
    let mut so_far = BytesMut::new();
    for frame in [
        Frame::Data(Bytes::from_static(b"ab")),
        Frame::Other,
        Frame::Data(Bytes::new()),
        Frame::Data(Bytes::from_static(b"cd")),
    ] {
        match Request::<()>::collect_body::<&str>(so_far, Some(Ok(frame))) {
            Collecting::More(more) => so_far = more,
            Collecting::Done(_) => panic!("done"),
        }
    }
    assert!(matches!(
        Request::<()>::collect_body(so_far.clone(), Some(Err("lost"))),
        Collecting::Done(Err("lost"))
    ));
    match Request::<()>::collect_body::<&str>(so_far, None) {
        Collecting::Done(Ok(all)) => assert_eq!(&all[..], b"abcd"),
        _ => panic!("not done"),
    }
}

#[test]
fn chunks_are_data_frames() {
    assert!(matches!(
        Request::<()>::next_chunk::<()>(Some(Ok(Frame::Other))),
        Reading::ReadOn
    ));
    assert!(matches!(
        Request::<()>::next_chunk(Some(Err("lost"))),
        Reading::Done(Err("lost"))
    ));
    match Request::<()>::next_chunk::<()>(Some(Ok(Frame::Data(Bytes::from_static(b"x"))))) {
        Reading::Done(Ok(chunk)) => assert_eq!(&chunk[..], b"x"),
        _ => panic!("no chunk"),
    }
    match Request::<()>::next_chunk::<()>(None) {
        Reading::Done(Ok(chunk)) => assert!(chunk.is_empty()),
        _ => panic!("no chunk"),
    }
}

#[test]
fn bodies_are_read_whole_whatever_the_room() {
    for room in [1, 2, 3, 100] {
        assert_eq!(read_all(FullBody::json("\"é\"".to_string()), room), "\"é\"".as_bytes());
        assert_eq!(read_all(NoBody, room), b"");
    }
    let mut body = FullBody(Bytes::from_static(b"abc"), Cow::Borrowed("x/y"));
    assert_eq!(body.length(), Some(3));
    assert_eq!(body.poll_read(2), b"ab");
    assert_eq!(body.length(), Some(1));
    assert_eq!(body.content_type(), "x/y");
    let mut either: EitherBody<FullBody, NoBody> = EitherBody::from(Either::Left(body));
    assert_eq!(either.length(), Some(1));
    assert_eq!(either.poll_read(9), b"c");
    let either: EitherBody<FullBody, NoBody> = EitherBody::from(Either::Right(NoBody));
    assert_eq!((either.length(), either.content_type()), (Some(0), "".into()));
}

#[test]
fn documents_are_rendered_as_json() {
    for text in ["", "a\"b\\c/", "\u{0}\u{8}\t\n\u{b}\u{c}\r\u{1f}\u{7f}é€"] {
        let owned = text.to_string();
        assert_eq!(owned.render(), serde_json::to_string_pretty(text).unwrap());
    }
    assert_eq!("\u{1}\u{1f}".render(), "\"\\u0001\\u001f\"");
    assert_eq!("a\"\\\n".render(), "\"a\\\"\\\\\\n\"");
    assert_eq!(true.render(), "true");
    assert_eq!(false.render(), "false");
    assert_eq!(().render(), "null");
    assert_eq!(
        http_gateway::json::ErrorBody { error: "x\ny".to_string() }.render(),
        "{\n  \"error\": \"x\\ny\"\n}"
    );
}

#[test]
fn responses_have_a_status_and_a_body() {
    let json = Json::j200("Ola");
    assert_eq!(json.status_code(), StatusCode(200));
    assert!(json.extra_headers().is_empty());
    let body = json.into_body();
    assert_eq!(body.content_type(), "application/json");
    assert_eq!(read_all(body, 4), b"\"Ola\"");

    let raw = HttpResponse::h200(NoBody);
    assert_eq!(raw.status_code(), StatusCode(200));
    assert_eq!(HttpResponse(NoBody, StatusCode(418)).status_code(), StatusCode(418));
    assert_eq!(Empty404.status_code(), StatusCode(404));
    assert_eq!(PanicResponse.status_code(), StatusCode(500));
    assert_eq!(std::io::Error::other("x").status_code(), StatusCode(500));
}

#[test]
fn responses_are_what_is_there() {
    let some: Option<Json<&'static str>> = Some(Json("x", StatusCode(202)));
    assert_eq!(some.status_code(), StatusCode(202));
    assert_eq!(read_all(some.into_body(), 9), b"\"x\"");
    let none: Option<Json<&'static str>> = None;
    assert_eq!(none.status_code(), StatusCode(404));
    assert_eq!(none.into_body().length(), Some(0));

    let ok: Result<Json<bool>, Empty404> = Ok(Json::j200(true));
    assert_eq!(ok.status_code(), StatusCode(200));
    assert_eq!(read_all(ok.into_body(), 9), b"true");
    let err: Result<Json<bool>, Empty404> = Err(Empty404);
    assert_eq!(err.status_code(), StatusCode(404));

    let left: Either<Empty404, Json<()>> = Either::Left(Empty404);
    assert_eq!(left.status_code(), StatusCode(404));
    let right: Either<Empty404, Json<()>> = Either::Right(Json::j200(()));
    assert_eq!(right.status_code(), StatusCode(200));
    assert_eq!(read_all(right.into_body(), 9), b"null");
}

struct Thing;

impl Document for Thing {
    fn render(&self) -> String {
        "{}".to_string()
    }
}

impl http_gateway::handler::ResourceLocation for Thing {
    fn location(&self) -> String {
        http_gateway::handler::default_location(Self::base(), self.resource_id())
    }

    fn base() -> &'static str {
        "/things/"
    }

    fn resource_id(&self) -> Cow<'_, str> {
        Cow::Borrowed("7")
    }
}

#[test]
fn created_resources_have_a_location() {
    let created = Json201(Thing);
    assert_eq!(created.status_code(), StatusCode(201));
    let headers = created.extra_headers();
    assert_eq!(headers.len(), 1);
    assert_eq!(headers.get(&"location".into()), Some(&"/things/7".to_string()));
    let (name, value) = headers.entry(0);
    assert_eq!((&**name, value.as_str()), ("Location", "/things/7"));
    let sent = to_sent(Ok::<_, PanicResponse>(created)).ok().unwrap();
    assert_eq!(
        sent.headers,
        [
            ("content-type".to_string(), "application/json".to_string()),
            ("location".to_string(), "/things/7".to_string()),
        ]
    );
}

#[test]
fn a_panic_is_sent_as_a_server_error() {
    let sent = to_sent(Err::<Json<bool>, _>(PanicResponse)).ok().unwrap();
    assert_eq!(sent.status, StatusCode(500));
    assert!(sent.headers.is_empty());
    assert_eq!(sent.body.size_hint(), Some(0));
}

#[test]
fn headers_are_sent_with_the_content_type_first() {
    let mut fields = Fields::new();
    fields.insert("X-One".into(), "1".into());
    fields.insert("Two".into(), "tab\tand é".into());
    let sent = response_headers(Cow::Borrowed(""), &fields).ok().unwrap();
    assert_eq!(
        sent,
        [
            ("x-one".to_string(), "1".to_string()),
            ("two".to_string(), "tab\tand é".to_string()),
        ]
    );
    let sent = response_headers(Cow::Borrowed("text/html"), &Fields::new());
    assert_eq!(
        sent.ok().unwrap(),
        [("content-type".to_string(), "text/html".to_string())]
    );
}

#[test]
fn what_is_no_header_is_an_error() {
    for c in '\0'..='\u{100}' {
        let mut fields = Fields::new();
        fields.insert(format!("a{c}").into(), "v".to_string());
        let name = hyper::header::HeaderName::from_bytes(format!("a{c}").as_bytes());
        match response_headers(Cow::Borrowed(""), &fields) {
            Ok(sent) => assert_eq!(sent[0].0, name.unwrap().as_str()),
            Err(error) => {
                assert_eq!(error, HeaderError::Name);
                assert!(name.is_err());
            }
        }
        let mut fields = Fields::new();
        fields.insert("a".into(), format!("v{c}"));
        assert_eq!(
            response_headers(Cow::Borrowed(""), &fields).err() == Some(HeaderError::Value),
            hyper::header::HeaderValue::from_str(&format!("v{c}")).is_err()
        );
    }
    let mut fields = Fields::new();
    fields.insert("".into(), "v".to_string());
    assert_eq!(
        response_headers(Cow::Borrowed(""), &fields).err(),
        Some(HeaderError::Name)
    );
    assert_eq!(
        response_headers(Cow::Borrowed("\n"), &fields).err(),
        Some(HeaderError::Value)
    );
}

#[test]
fn a_header_is_sent_by_its_spelling() {
    // The name is equal to `k`, but it is spelled with a character that no header has.
    let mut fields = Fields::new();
    fields.insert("\u{212a}".into(), "v".to_string());
    assert_eq!(fields.get(&"k".into()), Some(&"v".to_string()));
    assert_eq!(
        response_headers(Cow::Borrowed(""), &fields).err(),
        Some(HeaderError::Name)
    );
}

#[test]
fn a_header_keeps_the_spelling_that_came_first() {
    let headers = vec![raw("X-One", b"1"), raw("Two", b"2"), raw("x-one", b"3")];
    let uri = Uri::parse("/").unwrap();
    let request = to_request("GET", uri, &headers, ());
    assert_eq!(request.headers.len(), 2);
    let (name, value) = request.headers.entry(0);
    assert_eq!((&**name, value.as_str()), ("X-One", "3"));
    let (name, value) = request.headers.entry(1);
    assert_eq!((&**name, value.as_str()), ("Two", "2"));
}

#[test]
fn visible_header_values_are_read() {
    for b in 0..=255u8 {
        let headers = vec![raw("req-id", &[b'a', b])];
        let expected = hyper::header::HeaderValue::from_bytes(&[b'a', b])
            .ok()
            .and_then(|value| value.to_str().ok().map(|text| text.to_string()));
        assert_eq!(find_req_id(&headers), expected);
    }
}

#[test]
fn bodies_are_sent_in_frames() {
    let bytes: Vec<u8> = (0..20000u32).map(|i| i as u8).collect();
    let mut body = WriteBody::new(FullBody(bytes.clone().into(), Cow::Borrowed("x")));
    assert_eq!(body.size_hint(), Some(20000));
    let mut sizes = Vec::new();
    let mut all = Vec::new();
    while let Some(frame) = body.poll_frame() {
        sizes.push(frame.len());
        all.extend_from_slice(&frame);
    }
    assert_eq!(all, bytes);
    assert_eq!(sizes, [8192, 8192, 3616]);
    assert!(body.poll_frame().is_none());
}

#[test]
fn small_reads_use_up_the_buffer_before_it_grows() {
    let mut body = WriteBody::new(());
    assert_eq!(body.make_room(), 8192);
    assert_eq!(&body.frame(b"abc").unwrap()[..], b"abc");
    assert_eq!(body.make_room(), 8189);
    assert!(body.frame(b"").is_none());
    assert_eq!(body.make_room(), 8189);
    assert_eq!(&body.frame(&vec![1; 4100]).unwrap()[..], vec![1; 4100]);
    assert_eq!(body.make_room(), 8192);
}

fn address(listen: &str) -> Result<(String, u16), ListenError> {
    address_of(listen_url(listen).ok().expect("a URL"))
}

#[test]
fn a_server_tells_why_it_cannot_listen() {
    let url = "data:x".parse::<url::Url>().unwrap();
    assert_eq!(
        address("data:x").err().unwrap().message(),
        format!("Bad hostname for url {url:?}")
    );
    let url = "foo://host".parse::<url::Url>().unwrap();
    assert_eq!(
        address("foo://host").err().unwrap().message(),
        format!("Bad port number for url {url:?}")
    );
    let reason = listen_url("8080").err().unwrap();
    let error = ListenError::Url {
        shown: format!("{:?}", "8080"),
        reason,
    };
    assert_eq!(
        error.message(),
        "Bad LISTEN url (\"8080\"): relative URL without a base"
    );
    assert_eq!(
        ListenError::Missing("x".to_string()).message(),
        "Missing var LISTEN: x"
    );
}

#[test]
fn servers_listen_on_the_host_and_port_of_a_url() {
    assert_eq!(
        address("http://0.0.0.0:8080").ok(),
        Some(("0.0.0.0".to_string(), 8080))
    );
    assert_eq!(
        address("http://Example.com").ok(),
        Some(("example.com".to_string(), 80))
    );
    assert_eq!(
        address("https://[::1]/x").ok(),
        Some(("[::1]".to_string(), 443))
    );
    let shown = |text: &str| format!("{:?}", text.parse::<url::Url>().unwrap());
    assert!(matches!(
        address("data:x"),
        Err(ListenError::Hostname(url)) if url == shown("data:x")
    ));
    assert!(matches!(
        address("foo://host"),
        Err(ListenError::Port(url)) if url == shown("foo://host")
    ));
    match listen_url("8080") {
        Err(reason) => {
            assert_eq!(reason, "8080".parse::<url::Url>().unwrap_err().to_string());
        }
        Ok(_) => panic!("no error"),
    }
    let nowhere = ListenUrl {
        host: None,
        port: None,
        shown: "x".to_string(),
    };
    assert!(matches!(
        address_of(nowhere),
        Err(ListenError::Hostname(url)) if url == "x"
    ));
}
