use bytes::{Bytes, BytesMut};
use http_gateway::echo::{EchoNode, authenticate};
use http_gateway::fields::Fields;
use http_gateway::files::{
    FileLabel, FileNode, FileReader, HtmlFile, Naming, NewFile, Piece, Place, Polled,
    ReadFileBody, Received, Writing, descend, edit, listing, mime_or_default, new_name, next_name,
    sniffed, write_step,
};
use http_gateway::handler::{
    BufferedBody, Json201, Request, ResourceLocation, Response, ResponseBody, StringId,
};
use http_gateway::http::{Method, StatusCode};
use http_gateway::json::Document;
use http_gateway::router::walk::Action;
use http_gateway::router::{Node, RouterHandler, RouterResponse};
use http_gateway::todos::{
    Error422, NewTask, Tasks, TodoLabel, TodoNode, TodoReply, TodoTask, TodoTaskOut,
};
use http_gateway::uri_subject::path_str_to_path;

fn request(method: Method, path: &str) -> Request<()> {
    Request {
        method,
        path: path_str_to_path(path),
        headers: Fields::new(),
        query: Fields::new(),
        body: (),
    }
}

fn new_task(title: &str) -> NewTask {
    NewTask {
        title: title.to_string(),
    }
}

fn body(text: &str) -> Result<BytesMut, ()> {
    Ok(BytesMut::from(text))
}

const SEED: u128 = 0x019d6b16_a252_759c_b209_d102bcb1d0da;

#[test]
fn tasks_are_listed_by_their_ids() {
    let mut tasks = Tasks::new();
    for id in [7, 1, 3] {
        tasks.create_as(id, new_task(&format!("task {id}")));
    }
    let list = tasks.list();
    assert_eq!(list.status_code_value(), 200);
    assert_eq!(
        list.0
            .iter()
            .map(|task| (task.id, task.title.as_str(), task.done))
            .collect::<Vec<_>>(),
        [(1, "task 1", false), (3, "task 3", false), (7, "task 7", false)]
    );
}

trait Code {
    fn status_code_value(&self) -> u16;
}

impl<T> Code for http_gateway::handler::Json<T> {
    fn status_code_value(&self) -> u16 {
        self.1.0
    }
}

#[test]
fn a_created_task_is_found_at_its_location() {
    let mut tasks = Tasks::new();
    let Json201(created) = tasks.create(new_task("a"));
    let Json201(other) = tasks.create(new_task("b"));
    assert!(created.id != other.id);
    assert_eq!(uuid::Uuid::from_u128(created.id).get_version_num(), 7);
    let location = created.location();
    assert_eq!(
        location,
        format!("/tasks/{}", uuid::Uuid::from_u128(created.id))
    );
    let path = path_str_to_path(&location);
    assert_eq!(path.len(), 2);
    assert!(path[0] == "tasks");
    assert_eq!(tasks.find(&path[1]), Some(TodoNode::ExistentTask(created.id)));
    assert_eq!(tasks.show(created.id).unwrap().0.title, "a");
}

#[test]
fn ids_are_read_in_their_notations() {
    let text = "019d6b16-a252-759c-b209-d102bcb1d0da";
    assert_eq!(Tasks::id(&StringId::new(text)), SEED);
    assert_eq!(Tasks::id(&StringId::new(&text.to_uppercase())), SEED);
    assert_eq!(Tasks::id(&StringId::new(&text.replace('-', ""))), SEED);
    assert_eq!(Tasks::id(&StringId::new("no id")), 0);
    let task = TodoTaskOut {
        id: SEED,
        title: String::new(),
        done: false,
    };
    assert_eq!(task.resource_id(), text);
    assert_eq!(TodoTaskOut::base(), "/tasks/");
}

#[test]
fn tasks_are_deleted_once() {
    let mut tasks = Tasks::new();
    tasks.create_as(SEED, new_task("x"));
    let path = StringId::new("019d6b16-a252-759c-b209-d102bcb1d0da");
    assert_eq!(tasks.delete(&path).unwrap().0.title, "x");
    assert!(tasks.delete(&path).is_none());
    assert!(tasks.find(&path).is_none());
    assert!(tasks.show(SEED).is_none());
    assert!(tasks.list().0.is_empty());
}

#[test]
fn attributes_of_a_task_are_put() {
    let mut tasks = Tasks::new();
    tasks.create_as(SEED, new_task("x"));
    let set = tasks.put_title(SEED, body("\"a\\u0062\\n\""));
    assert!(matches!(&set, RouterResponse::Empty(empty) if empty.0 == StatusCode(200)));
    assert_eq!(tasks.title(SEED), Some("ab\n".to_string()));
    let set = tasks.put_done(SEED, body(" true "));
    assert!(matches!(set, RouterResponse::Empty(_)));
    assert_eq!(tasks.done(SEED), Some(true));
    tasks.put_done(SEED, body("false"));
    assert_eq!(tasks.done(SEED), Some(false));

    for text in ["", "\"", "\u{0}\t\\/\u{1f}é€\u{10ffff}"] {
        tasks.put_title(SEED, body(&text.to_string().render()));
        assert_eq!(tasks.title(SEED).unwrap(), text);
    }
    match tasks.put_title(SEED, body("7")) {
        RouterResponse::BadBody(error) => assert_eq!(
            error.error,
            serde_json::from_slice::<String>(b"7").unwrap_err().to_string()
        ),
        _ => panic!("no bad body"),
    }
    match tasks.put_done(SEED, body("maybe")) {
        RouterResponse::BadBody(error) => assert_eq!(
            error.error,
            serde_json::from_slice::<bool>(b"maybe").unwrap_err().to_string()
        ),
        _ => panic!("no bad body"),
    }
    match tasks.put_done(SEED, Err(())) {
        RouterResponse::BadBody(error) => assert_eq!(error.error, "Bad body transport"),
        _ => panic!("no bad body"),
    }
    assert_eq!(tasks.title(SEED).unwrap(), "\u{0}\t\\/\u{1f}é€\u{10ffff}");
}

#[test]
fn a_task_that_was_deleted_meanwhile_stays_deleted() {
    let mut tasks = Tasks::new();
    let set = tasks.put_title(SEED, body("\"x\""));
    assert!(matches!(&set, RouterResponse::Empty(empty) if empty.0 == StatusCode(200)));
    assert!(tasks.title(SEED).is_none());
    tasks.set_done(SEED, true);
    assert!(tasks.done(SEED).is_none());
}

#[test]
fn unprocessable_entities_are_responses() {
    let error = Error422 {
        error: "x".to_string(),
    };
    assert_eq!(error.status_code(), StatusCode(422));
    assert_eq!(&error.into_body().0[..], b"{\n  \"error\": \"x\"\n}");
    let task = TodoTask::from(new_task("t"));
    assert!(!task.done);
    assert_eq!(task.title, "t");
}

fn todo_label(node: TodoNode, method: Method, path: &str) -> String {
    match RouterHandler::do_handle(Node::Own(node), request(method, path)) {
        Action::Middleware { label, .. } => format!("{label:?}"),
        Action::Route { label, .. } => format!("{label:?}"),
        Action::Leaf { label, .. } => format!("{label:?}"),
        Action::Reply(RouterResponse::Empty(empty)) => empty.0.0.to_string(),
        _ => unreachable!(),
    }
}

#[test]
fn the_todos_are_routed() {
    let id = "019d6b16-a252-759c-b209-d102bcb1d0da";
    let task = TodoNode::ExistentTask(SEED);
    for (node, method, path, expected) in [
        (TodoNode::ApiRoot, Method::Get, "Tasks", "EnterTasks"),
        (TodoNode::ApiRoot, Method::Get, "other", "404"),
        (TodoNode::ApiRoot, Method::Get, "", "404"),
        (TodoNode::TasksDbRoute, Method::Get, "", "List"),
        (TodoNode::TasksDbRoute, Method::Post, "", "Create"),
        (TodoNode::TasksDbRoute, Method::Put, "", "405"),
        (TodoNode::TasksDbRoute, Method::Delete, id, "Delete"),
        (TodoNode::TasksDbRoute, Method::Get, id, "EnterTask"),
        (TodoNode::TasksDbRoute, Method::Post, id, "EnterTask"),
        (TodoNode::TasksDbRoute, Method::Delete, "x/title", "EnterTask"),
        (task, Method::Get, "", "Show"),
        (task, Method::Delete, "", "405"),
        (task, Method::Get, "title", "Title"),
        (task, Method::Put, "TITLE", "SetTitle"),
        (task, Method::Get, "done", "Done"),
        (task, Method::Put, "done", "SetDone"),
        (task, Method::Post, "done", "404"),
        (task, Method::Get, "done/x", "404"),
        (task, Method::Get, "other", "404"),
    ] {
        assert_eq!(todo_label(node, method, path), expected);
    }
}

#[test]
fn the_todos_are_entered_and_read() {
    let mut tasks = Tasks::new();
    tasks.create_as(SEED, new_task("x"));
    let segment = StringId::new("019d6b16-a252-759c-b209-d102bcb1d0da");
    assert!(matches!(
        tasks.enter(TodoLabel::EnterTasks, &segment),
        Node::Own(TodoNode::TasksDbRoute)
    ));
    assert!(matches!(
        tasks.enter(TodoLabel::EnterTask, &segment),
        Node::Optional(Some(_))
    ));
    assert!(matches!(
        tasks.enter(TodoLabel::EnterTask, &StringId::new("1")),
        Node::Optional(None)
    ));
    let task = TodoNode::ExistentTask(SEED);
    assert!(matches!(
        tasks.read(TodoLabel::Title, task),
        Some(TodoReply::Title(Some(json))) if json.0 == "x"
    ));
    assert!(matches!(
        tasks.read(TodoLabel::Done, task),
        Some(TodoReply::Done(Some(json))) if !json.0
    ));
    assert!(matches!(
        tasks.read(TodoLabel::Show, TodoNode::ExistentTask(1)),
        Some(TodoReply::Task(None))
    ));
    assert!(matches!(
        tasks.read(TodoLabel::List, TodoNode::TasksDbRoute),
        Some(TodoReply::List(list)) if list.0.len() == 1
    ));
    assert!(tasks.read(TodoLabel::Create, task).is_none());
}

fn bytes_of<B: BufferedBody>(mut body: B, room: usize) -> Vec<u8> {
    let mut all = Vec::new();
    loop {
        let read = body.poll_read(room);
        if read.is_empty() {
            return all;
        }
        all.extend(read);
    }
}

#[test]
fn pages_are_lists_of_links() {
    let page = listing(vec![
        ("/a".to_string(), "a".to_string()),
        ("/b/é".to_string(), "<é>".to_string()),
    ]);
    let expected =
        "<ul><li><a href=\"/a\">a</a></li><li><a href=\"/b/é\"><é></a></li></ul>".as_bytes();
    assert_eq!(page.status_code(), StatusCode(200));
    let body = page.into_body();
    assert_eq!(body.content_type(), "text/html");
    assert_eq!(body.length(), Some(expected.len() as u64));
    assert_eq!(bytes_of(body, 5), expected);
    assert_eq!(bytes_of(listing(Vec::new()).into_body(), 100), b"<ul></ul>");
}

#[test]
fn markup_is_nested() {
    let mut page = HtmlFile::new();
    page.ul(|page: &mut HtmlFile| {
        page.li(|page: &mut HtmlFile| page.a("l".to_string(), "t".to_string()));
    });
    page.a("m".to_string(), String::new());
    assert_eq!(
        bytes_of(page.into_body(), 1),
        b"<ul><li><a href=\"l\">t</a></li></ul><a href=\"m\"></a>"
    );
}

#[test]
fn empty_chunks_are_passed_over() {
    let mut body = http_gateway::files::Chunks(
        [Bytes::new(), Bytes::from_static(b"ab"), Bytes::new(), Bytes::from_static(b"c")].into(),
    );
    assert_eq!(body.length(), Some(3));
    assert_eq!(body.poll_read(0), b"");
    assert_eq!(body.poll_read(9), b"abc");
    assert_eq!(body.poll_read(9), b"");
}

#[test]
fn files_are_told_by_their_first_bytes() {
    assert_eq!(sniffed(b"\x89PNG\r\n\x1a\n....."), "image/png");
    assert_eq!(sniffed(b"just text"), "text/plain");
    assert_eq!(sniffed(b""), "text/plain");
    assert_eq!(sniffed("é".as_bytes()), "text/plain");
    assert_eq!(sniffed(&"é".as_bytes()[..1]), "application/octet-stream");
    assert_eq!(mime_or_default(Some("x/y"), b"\xff"), "x/y");
    assert_eq!(mime_or_default(None, b"\xff"), "application/octet-stream");
}

#[test]
fn files_are_read_while_they_are_sent() {
    let mut body = ReadFileBody::new((), "text/plain", 5);
    assert_eq!((body.length(), body.content_type()), (Some(5), "text/plain".into()));
    let mut out = Vec::new();
    assert!(matches!(body.fill::<()>(&mut out, 4), Polled::Receive));
    assert!(matches!(
        body.receive::<()>(Received::Chunk(BytesMut::from("abc")), false),
        Polled::Receive
    ));
    assert!(matches!(body.fill::<()>(&mut out, 4), Polled::Receive));
    assert_eq!((out.as_slice(), body.length()), (b"abc".as_slice(), Some(2)));
    assert!(matches!(body.receive::<()>(Received::Pending, true), Polled::Ready));
    assert!(matches!(body.receive::<()>(Received::Pending, false), Polled::Pending));
    assert!(matches!(
        body.receive(Received::Failed("lost"), true),
        Polled::Failed("lost")
    ));
    body.receive::<()>(Received::Chunk(BytesMut::from("de")), false);
    assert!(matches!(body.fill::<()>(&mut out, 4), Polled::Ready));
    assert_eq!((out.as_slice(), body.length()), (b"abcd".as_slice(), Some(1)));
    let mut out = Vec::new();
    assert!(matches!(body.fill::<()>(&mut out, 4), Polled::Receive));
    assert_eq!((out.as_slice(), body.length()), (b"e".as_slice(), Some(0)));
    assert!(matches!(body.receive::<()>(Received::Closed, true), Polled::Ready));
}

#[test]
fn files_are_read_piece_by_piece() {
    let mut reader = FileReader::new();
    assert_eq!(reader.room(), 8192);
    match reader.read::<()>(Ok(b"%PDF-1.7".to_vec())) {
        Piece::First(mime, piece) => {
            assert_eq!((mime, &piece[..]), ("application/pdf", b"%PDF-1.7".as_slice()));
        }
        _ => panic!("no first piece"),
    }
    assert_eq!(reader.room(), 8184);
    match reader.read::<()>(Ok(b"more".to_vec())) {
        Piece::Next(piece) => assert_eq!(&piece[..], b"more"),
        _ => panic!("no next piece"),
    }
    assert!(matches!(reader.read(Err("lost")), Piece::Failed("lost")));
    assert!(matches!(reader.read::<()>(Ok(Vec::new())), Piece::End));

    let mut empty = FileReader::new();
    empty.room();
    assert!(matches!(
        empty.read::<()>(Ok(Vec::new())),
        Piece::First("text/plain", piece) if piece.is_empty()
    ));
    assert!(matches!(empty.read::<()>(Ok(Vec::new())), Piece::End));
    assert!(matches!(
        FileReader::new().read(Err("lost")),
        Piece::Unreadable("lost")
    ));
}

#[test]
fn new_files_take_the_least_free_number() {
    let taken = ["newfile0", "newfile1", "newfile3"];
    let mut i: u32 = 0;
    let name = loop {
        match next_name(i, taken.contains(&new_name(i).as_str())) {
            Some(Naming::Take(name)) => break name,
            Some(Naming::Try(next)) => i = next,
            None => panic!("no name is free"),
        }
    };
    assert_eq!(name, "newfile2");
    assert!(next_name(u32::MAX, true).is_none());
    assert!(matches!(
        next_name(u32::MAX, false),
        Some(Naming::Take(name)) if name == "newfile4294967295"
    ));
}

#[test]
fn an_empty_chunk_ends_a_written_file() {
    assert!(matches!(write_step(Bytes::new()), Writing::Done));
    assert!(matches!(
        write_step(Bytes::from_static(b"x")),
        Writing::Append(chunk) if &chunk[..] == b"x"
    ));
}

#[test]
fn new_files_are_numbered() {
    assert_eq!(new_name(0), "newfile0");
    assert_eq!(new_name(10), "newfile10");
    assert_eq!(new_name(u32::MAX), "newfile4294967295");
    let file = NewFile {
        path: "/a/newfile0".to_string(),
    };
    assert_eq!(file.render(), "{\n  \"path\": \"/a/newfile0\"\n}");
    let created = Json201(file);
    assert_eq!(
        created.extra_headers().get(&"location".into()),
        Some(&"/a/newfile0".to_string())
    );
}

#[derive(Clone, Debug, PartialEq)]
struct At(&'static str);

impl Place for At {
    type Reader = ();
}

fn file_label(node: FileNode<At>, method: Method, path: &str) -> String {
    match RouterHandler::do_handle(Node::Own(node), request(method, path)) {
        Action::Middleware { label, .. } => format!("{label:?}"),
        Action::Route { label, .. } => format!("{label:?}"),
        Action::Leaf { label, .. } => format!("{label:?}"),
        Action::Reply(RouterResponse::Empty(empty)) => empty.0.0.to_string(),
        _ => unreachable!(),
    }
}

#[test]
fn files_are_browsed_and_written() {
    let folder = || FileNode::Folder {
        absolute: At("/srv"),
        relative: At("/"),
    };
    let file = || FileNode::EditFile {
        absolute: At("/srv"),
        relative: At("/"),
    };
    assert_eq!(file_label(folder(), Method::Get, "a/b"), "Descend");
    assert_eq!(file_label(folder(), Method::Get, ""), "Show");
    assert_eq!(file_label(folder(), Method::Put, "a"), "Edit");
    assert_eq!(file_label(folder(), Method::Post, ""), "Edit");
    assert_eq!(file_label(folder(), Method::Delete, ""), "405");
    assert_eq!(file_label(folder(), Method::Delete, "a"), "Descend");
    assert_eq!(file_label(file(), Method::Put, "a"), "Descend");
    assert_eq!(file_label(file(), Method::Put, ""), "Replace");
    assert_eq!(file_label(file(), Method::Post, ""), "Create");
    assert_eq!(file_label(file(), Method::Get, ""), "405");
    assert!(FileLabel::Show != FileLabel::Edit);

    assert!(matches!(
        edit(folder()),
        Node::Own(FileNode::EditFile { absolute: At("/srv"), relative: At("/") })
    ));
    assert!(matches!(descend(folder(), At("/srv/a"), At("/a"), false), Node::Optional(None)));
    match descend(folder(), At("/srv/a"), At("/a"), true) {
        Node::Optional(Some(node)) => assert!(matches!(
            *node,
            Node::Own(FileNode::Folder { absolute: At("/srv/a"), relative: At("/a") })
        )),
        _ => panic!("no node"),
    }
    match descend(file(), At("/srv/a"), At("/a"), false) {
        Node::Optional(Some(node)) => assert!(matches!(
            *node,
            Node::Own(FileNode::EditFile { absolute: At("/srv/a"), relative: At("/a") })
        )),
        _ => panic!("no node"),
    }
}

#[test]
fn requests_are_told_back() {
    let mut req = request(Method::Patch, "a/B");
    req.headers.insert("Authorization".into(), "Basic x y".to_string());
    req.headers.insert("Accept".into(), "z".to_string());
    req.query.insert("q".into(), "1".to_string());
    let root = match RouterHandler::do_handle(Node::Own(EchoNode::AuthRouter), req) {
        Action::Middleware { mut request, .. } => {
            let node = authenticate(&mut request);
            RouterHandler::do_handle(node, request)
        }
        _ => unreachable!(),
    };
    let mut action = root;
    loop {
        action = match action {
            Action::Route { node: EchoNode::EchoRouter(router), segment, request, .. } => {
                RouterHandler::do_handle(router.hop(segment), request)
            }
            Action::Leaf { node: EchoNode::EchoRouter(router), request, .. } => {
                let told = router.echo(request, BytesMut::from(" [1] ")).0;
                let (scheme, params) = told.auth.unwrap();
                assert_eq!((&*scheme, params.as_str()), ("Basic", "x y"));
                assert_eq!(told.method, "PATCH");
                assert_eq!(
                    told.path.iter().map(|s| &**s).collect::<Vec<_>>(),
                    ["a", "B"]
                );
                assert_eq!(told.headers.len(), 1);
                assert_eq!(told.query.get(&"q".into()), Some(&"1".to_string()));
                assert_eq!(told.body, Ok(b" [1] ".to_vec()));
                return;
            }
            _ => unreachable!(),
        };
    }
}

#[test]
fn a_body_that_is_no_document_is_told_why() {
    let mut req = request(Method::Get, "");
    let node = authenticate(&mut req);
    match RouterHandler::do_handle(node, req) {
        Action::Leaf { node: EchoNode::EchoRouter(router), request, .. } => {
            let told = router.echo(request, BytesMut::from("[1")).0;
            assert!(told.auth.is_none());
            assert_eq!(
                told.body,
                Err(serde_json::from_slice::<serde_json::Value>(b"[1")
                    .unwrap_err()
                    .to_string())
            );
        }
        _ => unreachable!(),
    }
}
