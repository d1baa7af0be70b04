//! A small todos REST API.
use crate::buffers;
#[allow(unused_imports)]
use crate::buffers::{filled, held};
use crate::fields::Fields;
#[allow(unused_imports)]
use crate::fields::FieldView;
use crate::handler::{
    FullBody, Json, Json201, Request, RequestView, ResourceLocation, Response, StringId,
    default_location, is_json,
};
use crate::http;
use crate::http::{Method, MethodView, StatusCode};
use crate::ids;
#[allow(unused_imports)]
use crate::ids::{hyphenated, uuid_read, version};
#[allow(unused_imports)]
use crate::json;
#[allow(unused_imports)]
use crate::json::{Document, ErrorBody};
use crate::router::ext::{RouterExt, parsed_body, set_response};
#[allow(unused_imports)]
use crate::router::laws::attribute_at;
#[allow(unused_imports)]
use crate::router::walk::{
    ActionView, claims_method, claims_request, claims_segment, decided, found_leaf,
    lemma_first_is, not_allowed, not_found,
};
use crate::router::{
    DeclarationView, EmptyResponse, EntryView, GuardView, MakeRoute, Methods, MethodsView, Node, Router,
    RouterDerived, RouterResponse, SegmentsView, Stage,
};
#[allow(unused_imports)]
use crate::text;
#[allow(unused_imports)]
use crate::uri_subject;
use bytes::BytesMut;
use std::borrow::Cow;
use std::collections::BTreeMap;
#[allow(unused_imports)]
use vstd::std_specs::iter::IteratorSpec;
#[allow(unused_imports)]
use vstd::utf8::encode_utf8;
use vstd::prelude::*;

verus! {

/// A task as it is sent to be made.
pub struct NewTask {
    pub title: String,
}

/// A task.
pub struct TodoTask {
    pub title: String,
    pub done: bool,
}

impl Clone for TodoTask {
    fn clone(&self) -> (r: Self)
        ensures
            r == *self,
    {
        TodoTask { title: self.title.clone(), done: self.done }
    }
}

/// A new task is not done.
impl From<NewTask> for TodoTask {
    fn from(value: NewTask) -> (r: Self)
        ensures
            r.title == value.title,
            !r.done,
    {
        TodoTask { title: value.title, done: false }
    }
}

impl vstd::std_specs::convert::FromSpecImpl<NewTask> for TodoTask {
    open spec fn obeys_from_spec() -> bool {
        true
    }

    open spec fn from_spec(v: NewTask) -> Self {
        TodoTask { title: v.title, done: false }
    }
}

/// A task as it is shown: with the id that it is found under.
pub struct TodoTaskOut {
    pub id: u128,
    pub title: String,
    pub done: bool,
}

impl From<(u128, TodoTask)> for TodoTaskOut {
    fn from(value: (u128, TodoTask)) -> (r: Self)
        ensures
            r.id == value.0,
            r.title == value.1.title,
            r.done == value.1.done,
    {
        TodoTaskOut { id: value.0, title: value.1.title, done: value.1.done }
    }
}

impl vstd::std_specs::convert::FromSpecImpl<(u128, TodoTask)> for TodoTaskOut {
    open spec fn obeys_from_spec() -> bool {
        true
    }

    open spec fn from_spec(v: (u128, TodoTask)) -> Self {
        shown(v.0, v.1)
    }
}

/// A task as it is shown.
pub open spec fn shown(id: u128, task: TodoTask) -> TodoTaskOut {
    TodoTaskOut { id, title: task.title, done: task.done }
}

/// A task is shown with its id, its title and whether it is done; a new one has the title
/// that it was sent with and is not done.
pub proof fn law_shown_task_has_its_fields(id: u128, task: TodoTask, new_task: NewTask)
    ensures
        shown(id, task).id == id,
        shown(id, task).title == task.title,
        shown(id, task).done == task.done,
        <TodoTask as vstd::std_specs::convert::FromSpec<NewTask>>::from_spec(new_task).title
            == new_task.title,
        !<TodoTask as vstd::std_specs::convert::FromSpec<NewTask>>::from_spec(new_task).done,
        <TodoTaskOut as vstd::std_specs::convert::FromSpec<(u128, TodoTask)>>::from_spec(
            (id, task),
        ) == (TodoTaskOut { id, title: task.title, done: task.done }),
{
}

impl ResourceLocation for TodoTaskOut {
    open spec fn located_at(&self) -> Seq<char> {
        Self::base_path() + self.identifier()
    }

    open spec fn base_path() -> Seq<char> {
        "/tasks/"@
    }

    open spec fn identifier(&self) -> Seq<char> {
        hyphenated(self.id)
    }

    fn location(&self) -> (r: String) {
        default_location(Self::base(), self.resource_id())
    }

    fn base() -> (r: &'static str) {
        "/tasks/"
    }

    fn resource_id(&self) -> (r: Cow<'_, str>) {
        Cow::Owned(ids::to_text(self.id))
    }
}

/// The location of a task is a path of two segments, of which the second is the id,
/// whose lowercase equivalent it is itself.
pub proof fn law_location_is_a_path(task: TodoTaskOut)
    ensures
        uri_subject::path_segments(task.located_at()) == seq!["tasks"@, hyphenated(task.id)],
        text::lowercase(hyphenated(task.id)) == hyphenated(task.id),
{
    let id = hyphenated(task.id);
    ids::law_text_of_an_id(task.id);
    reveal_strlit("tasks");
    reveal_strlit("/tasks/");
    assert forall|i: int| 0 <= i < id.len() implies uri_subject::plain(#[trigger] id[i])
        && text::plain(id[i]) && id[i] != '/' by {
        assert(ids::id_char(id[i]));
    }
    uri_subject::law_plain_piece_is_kept(id);
    uri_subject::law_plain_piece_is_kept("tasks"@);
    uri_subject::lemma_one_segment(id);
    uri_subject::lemma_one_segment("tasks"@);
    text::lemma_lowercase_of_plain(id);
    let nothing = Seq::<char>::empty();
    uri_subject::law_joined_paths(nothing, "tasks"@);
    uri_subject::law_joined_paths(nothing + seq!['/'] + "tasks"@, id);
    assert(task.located_at() =~= nothing + seq!['/'] + "tasks"@ + seq!['/'] + id);
    assert(Seq::<Seq<char>>::empty() + seq!["tasks"@] + seq![id] =~= seq!["tasks"@, id]);
}

/// A task is found at `/tasks/` followed by its id.
pub proof fn law_task_is_located_by_its_id(task: TodoTaskOut)
    ensures
        task.located_at() == "/tasks/"@ + hyphenated(task.id),
        task.identifier() == hyphenated(task.id),
        TodoTaskOut::base_path() == "/tasks/"@,
{
}

/// A request that could not be processed: `422 Unprocessable Entity` with a JSON
/// `{ "error": ... }` body.
pub struct Error422 {
    pub error: String,
}

impl Response for Error422 {
    type Body = FullBody;

    open spec fn status(&self) -> StatusCode {
        StatusCode(http::UNPROCESSABLE_ENTITY)
    }

    open spec fn headers(&self) -> Map<Seq<char>, FieldView> {
        Map::empty()
    }

    open spec fn has_body(&self, body: FullBody) -> bool {
        is_json(body, json::object_of("error"@, self.error@))
    }

    fn status_code(&self) -> (r: StatusCode) {
        StatusCode(http::UNPROCESSABLE_ENTITY)
    }

    fn into_body(self) -> (r: FullBody) {
        let code = self.status_code();
        Json(ErrorBody { error: self.error }, code).into_body()
    }

    fn extra_headers(&self) -> (r: Fields) {
        Fields::new()
    }
}

/// What could not be processed is `422`, with the message as the entry `error` of a JSON
/// object.
pub proof fn law_unprocessable_says_why(error: Error422, body: FullBody)
    ensures
        error.status() == StatusCode(422),
        error.headers() == Map::<Seq<char>, FieldView>::empty(),
        error.has_body(body) <==> held(body.0) == encode_utf8(
            json::object_of("error"@, error.error@),
        ) && body.1@ == "application/json"@,
{
}

/// Whether a task with the id `id` is in the list.
pub open spec fn lists(list: Seq<TodoTaskOut>, id: u128) -> bool {
    exists|i: int| 0 <= i < list.len() && (#[trigger] list[i]).id == id
}

/// Whether the list shows all the tasks and nothing else, by ascending ids.
pub open spec fn is_listing(list: Seq<TodoTaskOut>, tasks: Map<u128, TodoTask>) -> bool {
    &&& forall|i: int|
        0 <= i < list.len() ==> tasks.contains_key((#[trigger] list[i]).id) && list[i] == shown(
            list[i].id,
            tasks[list[i].id],
        )
    &&& forall|i: int, j: int| 0 <= i < j < list.len() ==> list[i].id < list[j].id
    &&& forall|id: u128| #[trigger] tasks.contains_key(id) ==> lists(list, id)
}

/// The tasks, by their ids.
pub struct Tasks {
    db: BTreeMap<u128, TodoTask>,
}

/// The id that a path segment is read as; the nil id if it is read as none.
pub open spec fn id_of(path: StringId) -> u128 {
    match uuid_read(path.ident()) {
        Some(id) => id,
        None => 0,
    }
}

impl View for Tasks {
    type V = Map<u128, TodoTask>;

    closed spec fn view(&self) -> Map<u128, TodoTask> {
        self.db@
    }
}

impl Tasks {
    /// No tasks.
    pub fn new() -> (r: Self)
        ensures
            r@ == Map::<u128, TodoTask>::empty(),
    {
        Tasks { db: BTreeMap::new() }
    }

    /// The id that a path segment is read as. The text of an id is read as that id.
    pub fn id(path: &StringId) -> (r: u128)
        ensures
            r == id_of(*path),
            forall|id: u128| path.ident() == #[trigger] hyphenated(id) ==> r == id,
            match uuid_read(path.ident()) {
                Some(id) => r == id,
                None => r == 0,
            },
    {
        match ids::parse(path.id()) {
            Some(id) => id,
            None => 0,
        }
    }

    /// All tasks, by ascending ids.
    pub fn list(&self) -> (r: Json<Vec<TodoTaskOut>>)
        ensures
            r.1 == StatusCode(http::OK),
            is_listing(r.0@, self@),
            forall|i: int|
                0 <= i < r.0@.len() ==> self@.contains_key((#[trigger] r.0@[i]).id)
                    && r.0@[i].title == self@[r.0@[i].id].title && r.0@[i].done
                    == self@[r.0@[i].id].done,
            forall|i: int, j: int| 0 <= i < j < r.0@.len() ==> r.0@[i].id < r.0@[j].id,
            forall|id: u128| #[trigger]
                self@.contains_key(id) ==> exists|i: int|
                    0 <= i < r.0@.len() && (#[trigger] r.0@[i]).id == id,
    {
        broadcast use vstd::std_specs::btree::group_btree_axioms;

        let mut list: Vec<TodoTaskOut> = Vec::new();
        let entries = self.db.iter();
        let ghost all = entries.remaining();
        let ghost keys = all.map_values(|entry: (&u128, &TodoTask)| *entry.0);
        assert(keys.len() == all.len());
        for entry in it: entries
            invariant
                it.seq() == all,
                list@.len() == it.index(),
                forall|i: int|
                    0 <= i < list@.len() ==> #[trigger] list@[i] == shown(
                        *it.seq()[i].0,
                        *it.seq()[i].1,
                    ),
        {
            list.push(TodoTaskOut::from((*entry.0, entry.1.clone())));
        }
        proof {
            assert(vstd::std_specs::btree::increasing_seq(keys));
            assert forall|i: int, j: int| 0 <= i < j < list@.len() implies list@[i].id
                < list@[j].id by {
                assert(keys[i] == list@[i].id && keys[j] == list@[j].id);
                assert(vstd::std_specs::cmp::OrdSpec::cmp_spec(&keys[i], &keys[j]) is Less);
            }
            assert forall|id: u128| #[trigger] self@.contains_key(id) implies lists(list@, id) by {
                assert(all.contains((&id, &self@[id])));
                let i = choose|i: int| 0 <= i < all.len() && all[i] == (&id, &self@[id]);
                assert(list@[i].id == id);
            }
        }
        Json::j200(list)
    }

    /// Removes the task that a path segment names, and shows it.
    pub fn delete(&mut self, path: &StringId) -> (r: Option<Json<TodoTaskOut>>)
        ensures
            final(self)@ == old(self)@.remove(id_of(*path)),
            r == if old(self)@.contains_key(id_of(*path)) {
                Some(Json(shown(id_of(*path), old(self)@[id_of(*path)]), StatusCode(http::OK)))
            } else {
                None
            },
            forall|id: u128|
                path.ident() == #[trigger] hyphenated(id) ==> id_of(*path) == id,
            r matches Some(deleted) ==> {
                &&& deleted.1 == StatusCode(200)
                &&& deleted.0.id == id_of(*path)
                &&& deleted.0.title == old(self)@[id_of(*path)].title
                &&& deleted.0.done == old(self)@[id_of(*path)].done
            },
            !final(self)@.contains_key(id_of(*path)),
            forall|other: u128|
                other != id_of(*path) ==> (#[trigger] final(self)@.contains_key(other)
                    <==> old(self)@.contains_key(other)) && final(self)@[other]
                    == old(self)@[other],
    {
        broadcast use vstd::std_specs::btree::group_btree_axioms;

        let id: u128 = Self::id(path);
        let ghost before = self.db@;
        match self.db.remove(&id) {
            Some(task) => Some(Json::j200(TodoTaskOut::from((id, task)))),
            None => {
                assert(before.remove(id) =~= before);
                None
            },
        }
    }

    /// Keeps a new task under `id`, and shows it as created.
    pub fn create_as(&mut self, id: u128, new_task: NewTask) -> (r: Json201<TodoTaskOut>)
        ensures
            final(self)@ == old(self)@.insert(id, TodoTask { title: new_task.title, done: false }),
            r == Json201(TodoTaskOut { id, title: new_task.title, done: false }),
    {
        broadcast use vstd::std_specs::btree::group_btree_axioms;

        let task = TodoTask::from(new_task);
        let _ = self.db.insert(id, task.clone());
        Json201(TodoTaskOut::from((id, task)))
    }

    /// Keeps a new task under a new id, and shows it as created.
    pub fn create(&mut self, new_task: NewTask) -> (r: Json201<TodoTaskOut>)
        ensures
            version(r.0.id) == 7,
            final(self)@ == old(self)@.insert(
                r.0.id,
                TodoTask { title: new_task.title, done: false },
            ),
            r.0.title == new_task.title,
            !r.0.done,
    {
        self.create_as(ids::now_v7(), new_task)
    }

    /// The node of the task that a path segment names, if there is one.
    pub fn find(&self, path: &StringId) -> (r: Option<TodoNode>)
        ensures
            r == if self@.contains_key(id_of(*path)) {
                Some(TodoNode::ExistentTask(id_of(*path)))
            } else {
                None
            },
            forall|id: u128|
                path.ident() == #[trigger] hyphenated(id) ==> id_of(*path) == id,
    {
        broadcast use vstd::std_specs::btree::group_btree_axioms;

        let id: u128 = Self::id(path);
        match self.db.get(&id) {
            Some(_) => Some(TodoNode::ExistentTask(id)),
            None => None,
        }
    }

    /// Shows the task with the id `id`.
    pub fn show(&self, id: u128) -> (r: Option<Json<TodoTaskOut>>)
        ensures
            r == if self@.contains_key(id) {
                Some(Json(shown(id, self@[id]), StatusCode(http::OK)))
            } else {
                None
            },
            r is Some <==> self@.contains_key(id),
            r matches Some(told) ==> told.1 == StatusCode(200) && told.0.id == id && told.0.title
                == self@[id].title && told.0.done == self@[id].done,
    {
        broadcast use vstd::std_specs::btree::group_btree_axioms;

        match self.db.get(&id) {
            Some(task) => Some(Json::j200(TodoTaskOut::from((id, task.clone())))),
            None => None,
        }
    }

    /// The title of the task with the id `id`.
    pub fn title(&self, id: u128) -> (r: Option<String>)
        ensures
            r == if self@.contains_key(id) {
                Some(self@[id].title)
            } else {
                None
            },
    {
        broadcast use vstd::std_specs::btree::group_btree_axioms;

        match self.db.get(&id) {
            Some(task) => Some(task.title.clone()),
            None => None,
        }
    }

    /// Whether the task with the id `id` is done.
    pub fn done(&self, id: u128) -> (r: Option<bool>)
        ensures
            r == if self@.contains_key(id) {
                Some(self@[id].done)
            } else {
                None
            },
    {
        broadcast use vstd::std_specs::btree::group_btree_axioms;

        match self.db.get(&id) {
            Some(task) => Some(task.done),
            None => None,
        }
    }

    /// Gives the task with the id `id` another title. A task that was deleted
    /// meanwhile stays deleted.
    pub fn set_title(&mut self, id: u128, title: String)
        ensures
            final(self)@ == if old(self)@.contains_key(id) {
                old(self)@.insert(id, TodoTask { title, ..old(self)@[id] })
            } else {
                old(self)@
            },
    {
        broadcast use vstd::std_specs::btree::group_btree_axioms;

        if let Some(task) = self.db.remove(&id) {
            let ghost before = old(self).db@;
            let _ = self.db.insert(id, TodoTask { title, ..task });
            assert(before.remove(id).insert(id, TodoTask { title, ..task }) =~= before.insert(
                id,
                TodoTask { title, ..task },
            ));
        } else {
            assert(old(self).db@.remove(id) =~= old(self).db@);
        }
    }

    /// Says whether the task with the id `id` is done. A task that was deleted
    /// meanwhile stays deleted.
    pub fn set_done(&mut self, id: u128, done: bool)
        ensures
            final(self)@ == if old(self)@.contains_key(id) {
                old(self)@.insert(id, TodoTask { done, ..old(self)@[id] })
            } else {
                old(self)@
            },
    {
        broadcast use vstd::std_specs::btree::group_btree_axioms;

        if let Some(task) = self.db.remove(&id) {
            let ghost before = old(self).db@;
            let _ = self.db.insert(id, TodoTask { done, ..task });
            assert(before.remove(id).insert(id, TodoTask { done, ..task }) =~= before.insert(
                id,
                TodoTask { done, ..task },
            ));
        } else {
            assert(old(self).db@.remove(id) =~= old(self).db@);
        }
    }
}

/// A node of the API.
#[derive(Clone, Copy, Debug, PartialEq, Eq, Structural)]
pub enum TodoNode {
    /// The root.
    ApiRoot,
    /// All tasks.
    TasksDbRoute,
    /// The task with this id.
    ExistentTask(u128),
}

/// What the handlers of the API are named.
#[derive(Clone, Copy, Debug, PartialEq, Eq, Structural)]
pub enum TodoLabel {
    /// Go to all tasks.
    EnterTasks,
    /// List all tasks.
    List,
    /// Delete a task.
    Delete,
    /// Make a task.
    Create,
    /// Go to a task.
    EnterTask,
    /// Show a task.
    Show,
    /// Read the title of a task.
    Title,
    /// Write the title of a task.
    SetTitle,
    /// Read whether a task is done.
    Done,
    /// Write whether a task is done.
    SetDone,
}

/// What the handlers of the API respond with.
pub enum TodoReply {
    /// Some tasks.
    List(Json<Vec<TodoTaskOut>>),
    /// A task, or that there is none.
    Task(Option<Json<TodoTaskOut>>),
    /// A new task.
    Created(Result<Json201<TodoTaskOut>, Error422>),
    /// The title of a task.
    Title(Option<Json<String>>),
    /// Whether a task is done.
    Done(Option<Json<bool>>),
}

impl MakeRoute for TodoNode {
    type Body = ();

    type Label = TodoLabel;

    type Response = TodoReply;

    open spec fn declared(&self) -> Seq<DeclarationView<TodoLabel>> {
        match self {
            TodoNode::ApiRoot => seq![
                (DeclarationView::Route {
                    guard: GuardView::open(),
                    segments: SegmentsView::OneOf(seq![text::lowercase("tasks"@)]),
                    terminal: false,
                    label: TodoLabel::EnterTasks,
                }),
            ],
            TodoNode::TasksDbRoute => seq![
                (DeclarationView::Leaf {
                    methods: MethodsView::Only(seq![MethodView::Get]),
                    condition: None,
                    label: TodoLabel::List,
                }),
                (DeclarationView::Route {
                    guard: GuardView::last_with(MethodView::Delete),
                    segments: SegmentsView::Any,
                    terminal: true,
                    label: TodoLabel::Delete,
                }),
                (DeclarationView::Middleware {
                    guard: GuardView::last_with(MethodView::Post),
                    stage: Stage::Plain,
                    label: TodoLabel::Create,
                }),
                (DeclarationView::Route {
                    guard: GuardView::open(),
                    segments: SegmentsView::Any,
                    terminal: false,
                    label: TodoLabel::EnterTask,
                }),
            ],
            TodoNode::ExistentTask(_) => seq![
                (DeclarationView::Leaf {
                    methods: MethodsView::Only(seq![MethodView::Get]),
                    condition: None,
                    label: TodoLabel::Show,
                }),
            ] + attribute_at(
                text::lowercase("title"@),
                TodoLabel::SetTitle,
                TodoLabel::Title,
            ) + attribute_at(
                text::lowercase("done"@),
                TodoLabel::SetDone,
                TodoLabel::Done,
            ),
        }
    }

    open spec fn on_request(&self, condition: TodoLabel, request: RequestView<()>) -> bool {
        false
    }

    open spec fn on_route(
        &self,
        condition: TodoLabel,
        request: RequestView<()>,
        segment: StringId,
    ) -> bool {
        false
    }

    open spec fn on_segment(&self, condition: TodoLabel, segment: StringId) -> bool {
        false
    }

    open spec fn on_method(&self, condition: TodoLabel, method: MethodView) -> bool {
        false
    }

    fn register<R: Router<TodoLabel>>(&self, router: &mut R) {
        let ghost before = router.listed();
        match self {
            TodoNode::ApiRoot => {
                router.path(StringId::from("tasks"), TodoLabel::EnterTasks);
            },
            TodoNode::TasksDbRoute => {
                router.get(TodoLabel::List);
                router.delete_route(TodoLabel::Delete);
                router.post_body(TodoLabel::Create);
                router.route(TodoLabel::EnterTask);
            },
            TodoNode::ExistentTask(_) => {
                router.get(TodoLabel::Show);
                router.attribute(StringId::from("title"), TodoLabel::SetTitle, TodoLabel::Title);
                router.attribute(StringId::from("done"), TodoLabel::SetDone, TodoLabel::Done);
            },
        }
        assert(router.listed() =~= before + self.declared());
    }

    fn test_request(&self, condition: TodoLabel, request: &Request<()>) -> (r: bool) {
        false
    }

    fn test_route(
        &self,
        condition: TodoLabel,
        request: &Request<()>,
        segment: &StringId,
    ) -> (r: bool) {
        false
    }

    fn test_segment(&self, condition: TodoLabel, segment: &StringId) -> (r: bool) {
        false
    }

    fn test_method(&self, condition: TodoLabel, method: &Method) -> (r: bool) {
        false
    }

    fn test_any_method(&self, condition: TodoLabel, methods: &Methods) -> (r: bool) {
        false
    }
}

impl Tasks {
    /// The node that a route leads to.
    pub fn enter(&self, label: TodoLabel, segment: &StringId) -> (r: Node<TodoNode>)
        ensures
            r == match label {
                TodoLabel::EnterTasks => Node::Own(TodoNode::TasksDbRoute),
                TodoLabel::EnterTask => Node::Optional(
                    if self@.contains_key(id_of(*segment)) {
                        Some(Box::new(Node::Own(TodoNode::ExistentTask(id_of(*segment)))))
                    } else {
                        None
                    },
                ),
                _ => Node::Nothing,
            },
    {
        match label {
            TodoLabel::EnterTasks => Node::Own(TodoNode::TasksDbRoute),
            TodoLabel::EnterTask => Node::Optional(
                match self.find(segment) {
                    Some(node) => Some(Box::new(Node::Own(node))),
                    None => None,
                },
            ),
            _ => Node::Nothing,
        }
    }

    /// The response to a request that reads.
    pub fn read(&self, label: TodoLabel, node: TodoNode) -> (r: Option<TodoReply>)
        ensures
            match (label, node) {
                (TodoLabel::List, _) => r matches Some(TodoReply::List(list)) && list.1
                    == StatusCode(http::OK) && is_listing(list.0@, self@),
                (TodoLabel::Show, TodoNode::ExistentTask(id)) => r == Some(
                    TodoReply::Task(
                        if self@.contains_key(id) {
                            Some(Json(shown(id, self@[id]), StatusCode(http::OK)))
                        } else {
                            None
                        },
                    ),
                ),
                (TodoLabel::Title, TodoNode::ExistentTask(id)) => r == Some(
                    TodoReply::Title(
                        if self@.contains_key(id) {
                            Some(Json(self@[id].title, StatusCode(http::OK)))
                        } else {
                            None
                        },
                    ),
                ),
                (TodoLabel::Done, TodoNode::ExistentTask(id)) => r == Some(
                    TodoReply::Done(
                        if self@.contains_key(id) {
                            Some(Json(self@[id].done, StatusCode(http::OK)))
                        } else {
                            None
                        },
                    ),
                ),
                _ => r is None,
            },
    {
        match (label, node) {
            (TodoLabel::List, _) => Some(TodoReply::List(self.list())),
            (TodoLabel::Show, TodoNode::ExistentTask(id)) => Some(TodoReply::Task(self.show(id))),
            (TodoLabel::Title, TodoNode::ExistentTask(id)) => Some(
                TodoReply::Title(
                    match self.title(id) {
                        Some(title) => Some(Json::j200(title)),
                        None => None,
                    },
                ),
            ),
            (TodoLabel::Done, TodoNode::ExistentTask(id)) => Some(
                TodoReply::Done(
                    match self.done(id) {
                        Some(done) => Some(Json::j200(done)),
                        None => None,
                    },
                ),
            ),
            _ => None,
        }
    }
}

/// What a `PUT` of a title makes of the tasks and responds: `body` is the request
/// body, or fails where its transport failed.
pub open spec fn title_put<E>(
    before: Map<u128, TodoTask>,
    id: u128,
    body: Result<BytesMut, E>,
    after: Map<u128, TodoTask>,
    response: RouterResponse<TodoReply>,
) -> bool {
    match body {
        Ok(document) => match json::text_read(filled(document)) {
            Ok(text) => {
                &&& response == RouterResponse::<TodoReply>::Empty(
                    EmptyResponse(StatusCode(http::OK)),
                )
                &&& if before.contains_key(id) {
                    exists|title: String|
                        title@ == text && after == before.insert(
                            id,
                            (TodoTask { title, ..before[id] }),
                        )
                } else {
                    after == before
                }
            },
            Err(reason) => {
                &&& response matches RouterResponse::BadBody(error)
                &&& error.error@ == reason
                &&& after == before
            },
        },
        Err(_) => {
            &&& response matches RouterResponse::BadBody(error)
            &&& error.error@ == "Bad body transport"@
            &&& after == before
        },
    }
}

/// What a `PUT` of whether a task is done makes of the tasks and responds.
pub open spec fn done_put<E>(
    before: Map<u128, TodoTask>,
    id: u128,
    body: Result<BytesMut, E>,
    after: Map<u128, TodoTask>,
    response: RouterResponse<TodoReply>,
) -> bool {
    match body {
        Ok(document) => match json::flag_read(filled(document)) {
            Ok(done) => {
                &&& response == RouterResponse::<TodoReply>::Empty(
                    EmptyResponse(StatusCode(http::OK)),
                )
                &&& after == if before.contains_key(id) {
                    before.insert(id, (TodoTask { done, ..before[id] }))
                } else {
                    before
                }
            },
            Err(reason) => {
                &&& response matches RouterResponse::BadBody(error)
                &&& error.error@ == reason
                &&& after == before
            },
        },
        Err(_) => {
            &&& response matches RouterResponse::BadBody(error)
            &&& error.error@ == "Bad body transport"@
            &&& after == before
        },
    }
}

impl Tasks {
    /// Handles a `PUT` of the title of a task.
    pub fn put_title<E>(&mut self, id: u128, body: Result<BytesMut, E>) -> (r: RouterResponse<
        TodoReply,
    >)
        ensures
            title_put(old(self)@, id, body, final(self)@, r),
            match body {
                Ok(document) => match json::text_read(filled(document)) {
                    Ok(text) => r == RouterResponse::<TodoReply>::Empty(
                        EmptyResponse(StatusCode(200)),
                    ) && (old(self)@.contains_key(id) ==> final(self)@[id].title@ == text
                        && final(self)@[id].done == old(self)@[id].done),
                    Err(reason) => (r matches RouterResponse::BadBody(error) && error.error@
                        == reason) && final(self)@ == old(self)@,
                },
                Err(_) => (r matches RouterResponse::BadBody(error) && error.error@
                    == "Bad body transport"@) && final(self)@ == old(self)@,
            },
            final(self)@.dom() == old(self)@.dom(),
            forall|other: u128| other != id ==> #[trigger] final(self)@[other] == old(self)@[other],
            forall|text: Seq<char>|
                body matches Ok(document) && filled(document) == encode_utf8(
                    #[trigger] json::quoted(text),
                ) ==> json::text_read(filled(body->Ok_0)) == Ok::<Seq<char>, Seq<char>>(text),
    {
        let read = match body {
            Ok(document) => Ok(json::read_text(buffers::slice_of_mut(&document))),
            Err(error) => Err(error),
        };
        match parsed_body(read) {
            Ok(title) => {
                self.set_title(id, title);
                set_response(Ok(Ok(())))
            },
            Err(error) => set_response(Err(error)),
        }
    }

    /// Handles a `PUT` of whether a task is done.
    pub fn put_done<E>(&mut self, id: u128, body: Result<BytesMut, E>) -> (r: RouterResponse<
        TodoReply,
    >)
        ensures
            done_put(old(self)@, id, body, final(self)@, r),
            match body {
                Ok(document) => match json::flag_read(filled(document)) {
                    Ok(done) => r == RouterResponse::<TodoReply>::Empty(
                        EmptyResponse(StatusCode(200)),
                    ) && (old(self)@.contains_key(id) ==> final(self)@[id].done == done
                        && final(self)@[id].title == old(self)@[id].title),
                    Err(reason) => (r matches RouterResponse::BadBody(error) && error.error@
                        == reason) && final(self)@ == old(self)@,
                },
                Err(_) => (r matches RouterResponse::BadBody(error) && error.error@
                    == "Bad body transport"@) && final(self)@ == old(self)@,
            },
            final(self)@.dom() == old(self)@.dom(),
            forall|other: u128| other != id ==> #[trigger] final(self)@[other] == old(self)@[other],
            forall|done: bool|
                body matches Ok(document) && filled(document) == encode_utf8(
                    #[trigger] done.document(),
                ) ==> json::flag_read(filled(body->Ok_0)) == Ok::<bool, Seq<char>>(done),
    {
        let read = match body {
            Ok(document) => Ok(json::read_flag(buffers::slice_of_mut(&document))),
            Err(error) => Err(error),
        };
        match parsed_body(read) {
            Ok(done) => {
                self.set_done(id, done);
                set_response(Ok(Ok(())))
            },
            Err(error) => set_response(Err(error)),
        }
    }
}

/// A title that was put is the title of the task; nothing else changes.
pub proof fn law_put_title_is_read_back<E>(
    before: Map<u128, TodoTask>,
    id: u128,
    document: BytesMut,
    after: Map<u128, TodoTask>,
    response: RouterResponse<TodoReply>,
)
    requires
        title_put(before, id, Ok::<BytesMut, E>(document), after, response),
        json::text_read(filled(document)) is Ok,
        before.contains_key(id),
    ensures
        after.contains_key(id),
        after[id].title@ == json::text_read(filled(document))->Ok_0,
        after[id].done == before[id].done,
        after.dom() == before.dom(),
        forall|other: u128| other != id ==> #[trigger] after[other] == before[other],
{
    assert(after.dom() =~= before.dom());
}

/// After a title was put, the task is shown and listed with it, and the response is `200`
/// without a body.
pub proof fn law_put_title_is_shown<E>(
    before: Map<u128, TodoTask>,
    id: u128,
    document: BytesMut,
    after: Map<u128, TodoTask>,
    response: RouterResponse<TodoReply>,
    list: Seq<TodoTaskOut>,
)
    requires
        title_put(before, id, Ok::<BytesMut, E>(document), after, response),
        json::text_read(filled(document)) is Ok,
        before.contains_key(id),
        is_listing(list, after),
    ensures
        response == RouterResponse::<TodoReply>::Empty(EmptyResponse(StatusCode(200))),
        shown(id, after[id]).title@ == json::text_read(filled(document))->Ok_0,
        exists|i: int|
            0 <= i < list.len() && (#[trigger] list[i]).id == id && list[i].title@
                == json::text_read(filled(document))->Ok_0,
{
    law_put_title_is_read_back::<E>(before, id, document, after, response);
    assert(after.contains_key(id));
    assert(lists(list, id));
}

/// After it was put whether a task is done, the task is shown and listed so, and the
/// response is `200` without a body; its title and the other tasks stay as they were.
pub proof fn law_put_done_is_shown<E>(
    before: Map<u128, TodoTask>,
    id: u128,
    document: BytesMut,
    after: Map<u128, TodoTask>,
    response: RouterResponse<TodoReply>,
    list: Seq<TodoTaskOut>,
)
    requires
        done_put(before, id, Ok::<BytesMut, E>(document), after, response),
        json::flag_read(filled(document)) is Ok,
        before.contains_key(id),
        is_listing(list, after),
    ensures
        response == RouterResponse::<TodoReply>::Empty(EmptyResponse(StatusCode(200))),
        after[id].done == json::flag_read(filled(document))->Ok_0,
        after[id].title == before[id].title,
        after.dom() == before.dom(),
        forall|other: u128| other != id ==> #[trigger] after[other] == before[other],
        shown(id, after[id]).done == json::flag_read(filled(document))->Ok_0,
        exists|i: int|
            0 <= i < list.len() && (#[trigger] list[i]).id == id && list[i].done
                == json::flag_read(filled(document))->Ok_0,
{
    assert(after.dom() =~= before.dom());
    assert(lists(list, id));
}

/// A listing shows each task once, with its id, its title and whether it is done, by
/// ascending ids.
pub proof fn law_listing_shows_each_task_once(
    list: Seq<TodoTaskOut>,
    tasks: Map<u128, TodoTask>,
    id: u128,
)
    requires
        is_listing(list, tasks),
    ensures
        tasks.contains_key(id) <==> exists|i: int|
            0 <= i < list.len() && (#[trigger] list[i]).id == id,
        forall|i: int|
            0 <= i < list.len() && (#[trigger] list[i]).id == id ==> list[i].title
                == tasks[id].title && list[i].done == tasks[id].done,
        forall|i: int, j: int|
            0 <= i < j < list.len() ==> (#[trigger] list[i]).id < (#[trigger] list[j]).id,
{
    if tasks.contains_key(id) {
        assert(lists(list, id));
    }
}

/// A segment is read as the id that it is the text of; what is no id is read as the nil
/// id.
pub proof fn law_segment_is_read_as_its_id(path: StringId)
    ensures
        match uuid_read(path.ident()) {
            Some(id) => id_of(path) == id,
            None => id_of(path) == 0,
        },
{
}

/// A request body that could not be read or parsed changes no task.
pub proof fn law_bad_body_changes_nothing<E>(
    before: Map<u128, TodoTask>,
    id: u128,
    body: Result<BytesMut, E>,
    after: Map<u128, TodoTask>,
    response: RouterResponse<TodoReply>,
)
    requires
        title_put(before, id, body, after, response) || done_put(before, id, body, after, response),
        response is BadBody,
    ensures
        after == before,
{
}

/// The root of the API has the tasks at `tasks`, and nothing else.
pub proof fn law_root_has_the_tasks(request: RequestView<()>)
    ensures
        decided(Node::Own(TodoNode::ApiRoot), request) == if request.path.len() > 0
            && request.path[0].ident() == "tasks"@ {
            ActionView::Route {
                label: TodoLabel::EnterTasks,
                terminal: false,
                node: TodoNode::ApiRoot,
                segment: request.path[0],
                request: RequestView { path: request.path.drop_first(), ..request },
            }
        } else {
            ActionView::Reply(not_found())
        },
{
    reveal_strlit("tasks");
    text::lemma_lowercase_of_plain("tasks"@);
    let node = Node::Own(TodoNode::ApiRoot);
    let entries = node.entries();
    lemma_first_is(entries, |entry: EntryView<TodoLabel>| claims_request(node, entry, request), 1);
    if request.path.len() > 0 {
        let passed = RequestView { path: request.path.drop_first(), ..request };
        let segment = request.path[0];
        let claims = |entry: EntryView<TodoLabel>| claims_segment(node, entry, passed, segment);
        let names = seq!["tasks"@];
        if segment.ident() == "tasks"@ {
            assert(names[0] == segment.ident());
            assert(claims(entries[0]));
            lemma_first_is(entries, claims, 0);
        } else {
            lemma_first_is(entries, claims, 1);
        }
    } else {
        assert forall|method: MethodView| found_leaf(node, method) is None by {
            lemma_first_is(
                entries,
                |entry: EntryView<TodoLabel>| claims_method(node, entry, method),
                1,
            );
        }
    }
}

/// At the tasks, `GET` lists, `POST` makes one and other methods are not allowed; with
/// a segment, `DELETE` of the last one deletes and all else goes to the task.
pub proof fn law_tasks_are_listed_made_and_deleted(request: RequestView<()>)
    ensures
        decided(Node::Own(TodoNode::TasksDbRoute), request) == if request.path.len() == 0 {
            match request.method {
                MethodView::Get => ActionView::Leaf {
                    label: TodoLabel::List,
                    node: TodoNode::TasksDbRoute,
                    request,
                },
                MethodView::Post => ActionView::Middleware {
                    label: TodoLabel::Create,
                    post: false,
                    node: TodoNode::TasksDbRoute,
                    request,
                },
                _ => ActionView::Reply(not_allowed()),
            }
        } else {
            let last = request.path.len() == 1 && request.method == MethodView::Delete;
            ActionView::Route {
                label: if last {
                    TodoLabel::Delete
                } else {
                    TodoLabel::EnterTask
                },
                terminal: last,
                node: TodoNode::TasksDbRoute,
                segment: request.path[0],
                request: RequestView { path: request.path.drop_first(), ..request },
            }
        },
{
    let node = Node::Own(TodoNode::TasksDbRoute);
    let entries = node.entries();
    let gets = seq![MethodView::Get];
    let posts = seq![MethodView::Post];
    let deletes = seq![MethodView::Delete];
    assert(gets[0] == MethodView::Get && posts[0] == MethodView::Post && deletes[0]
        == MethodView::Delete);
    let claims = |entry: EntryView<TodoLabel>| claims_request(node, entry, request);
    if request.path.len() == 0 && request.method == MethodView::Post {
        assert(claims(entries[2]));
        lemma_first_is(entries, claims, 2);
    } else {
        assert(!claims(entries[2]));
        lemma_first_is(entries, claims, 4);
        if request.path.len() > 0 {
            let passed = RequestView { path: request.path.drop_first(), ..request };
            let segment = request.path[0];
            let claims = |entry: EntryView<TodoLabel>| claims_segment(node, entry, passed, segment);
            if request.path.len() == 1 && request.method == MethodView::Delete {
                assert(claims(entries[1]));
                lemma_first_is(entries, claims, 1);
            } else {
                assert(!claims(entries[1]));
                assert(claims(entries[3]));
                lemma_first_is(entries, claims, 3);
            }
        } else {
            let get = |entry: EntryView<TodoLabel>| claims_method(node, entry, MethodView::Get);
            assert(get(entries[0]));
            lemma_first_is(entries, get, 0);
            assert(found_leaf(node, MethodView::Get) is Some);
            if request.method != MethodView::Get {
                let claims = |entry: EntryView<TodoLabel>| claims_method(node, entry, request.method);
                assert(!claims(entries[0]));
                lemma_first_is(entries, claims, 4);
            }
        }
    }
}

/// At a task, `GET` shows it and other methods are not allowed; its title and whether
/// it is done are read by `GET` and written by `PUT` at `title` and `done`.
pub proof fn law_task_is_shown_and_changed(id: u128, request: RequestView<()>)
    ensures
        decided(Node::Own(TodoNode::ExistentTask(id)), request) == if request.path.len() == 0 {
            if request.method == MethodView::Get {
                ActionView::Leaf {
                    label: TodoLabel::Show,
                    node: TodoNode::ExistentTask(id),
                    request,
                }
            } else {
                ActionView::Reply(not_allowed())
            }
        } else {
            let name = request.path[0].ident();
            let known = name == "title"@ || name == "done"@;
            let title = name == "title"@;
            if request.path.len() == 1 && known && (request.method == MethodView::Get
                || request.method == MethodView::Put) {
                ActionView::Route {
                    label: match (title, request.method) {
                        (true, MethodView::Get) => TodoLabel::Title,
                        (true, _) => TodoLabel::SetTitle,
                        (false, MethodView::Get) => TodoLabel::Done,
                        (false, _) => TodoLabel::SetDone,
                    },
                    terminal: true,
                    node: TodoNode::ExistentTask(id),
                    segment: request.path[0],
                    request: RequestView { path: request.path.drop_first(), ..request },
                }
            } else {
                ActionView::Reply(not_found())
            }
        },
{
    reveal_strlit("title");
    reveal_strlit("done");
    text::lemma_lowercase_of_plain("title"@);
    text::lemma_lowercase_of_plain("done"@);
    let node = Node::Own(TodoNode::ExistentTask(id));
    let entries = node.entries();
    let gets = seq![MethodView::Get];
    let puts = seq![MethodView::Put];
    let titles = seq!["title"@];
    let dones = seq!["done"@];
    assert(gets[0] == MethodView::Get && puts[0] == MethodView::Put);
    assert(titles[0] == "title"@ && dones[0] == "done"@);
    lemma_first_is(entries, |entry: EntryView<TodoLabel>| claims_request(node, entry, request), 5);
    if request.path.len() > 0 {
        let passed = RequestView { path: request.path.drop_first(), ..request };
        let segment = request.path[0];
        let name = segment.ident();
        let claims = |entry: EntryView<TodoLabel>| claims_segment(node, entry, passed, segment);
        let at = if request.path.len() != 1 {
            5
        } else if name == "title"@ && request.method == MethodView::Get {
            1
        } else if name == "title"@ && request.method == MethodView::Put {
            2
        } else if name == "done"@ && request.method == MethodView::Get {
            3
        } else if name == "done"@ && request.method == MethodView::Put {
            4
        } else {
            5int
        };
        assert(claims(entries[1]) == (at == 1));
        assert(claims(entries[2]) == (at == 2));
        assert(claims(entries[3]) == (at == 3));
        assert(claims(entries[4]) == (at == 4));
        lemma_first_is(entries, claims, at);
    } else {
        let get = |entry: EntryView<TodoLabel>| claims_method(node, entry, MethodView::Get);
        assert(get(entries[0]));
        lemma_first_is(entries, get, 0);
        assert(found_leaf(node, MethodView::Get) is Some);
        if request.method != MethodView::Get {
            let claims = |entry: EntryView<TodoLabel>| claims_method(node, entry, request.method);
            assert(!claims(entries[0]));
            lemma_first_is(entries, claims, 5);
        }
    }
}

} // verus!
