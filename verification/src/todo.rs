//! The to-do items that the client shows, and where they came from.
use vstd::prelude::*;

verus! {

/// What a to-do item asks of the student; the filters of the UI.
#[derive(Debug, Clone, Copy, PartialEq, Eq, Structural)]
pub enum TodoKind {
    Assignment,
    Turnitin,
    Registration,
    Assessment,
    Other,
}

/// Which Moodle interface produced a list of items.
#[derive(Debug, Clone, Copy, PartialEq, Eq, Structural)]
pub enum TodoSourceKind {
    Ajax,
    Ical,
}

/// One deadline: `deadline` is an RFC 3339 timestamp (or the raw value the
/// calendar gave when it is not a date), `url` the page it concerns.
#[derive(Debug, Clone)]
pub struct TodoItem {
    pub id: String,
    pub title: String,
    pub course: Option<String>,
    pub kind: TodoKind,
    pub deadline: String,
    pub url: String,
}

/// The mathematical value of a [`TodoItem`].
pub struct TodoItemView {
    pub id: Seq<char>,
    pub title: Seq<char>,
    pub course: Option<Seq<char>>,
    pub kind: TodoKind,
    pub deadline: Seq<char>,
    pub url: Seq<char>,
}

/// The characters of an optional string.
pub open spec fn opt_view(o: Option<String>) -> Option<Seq<char>> {
    match o {
        Some(s) => Some(s@),
        None => None,
    }
}

impl View for TodoItem {
    type V = TodoItemView;

    open spec fn view(&self) -> TodoItemView {
        TodoItemView {
            id: self.id@,
            title: self.title@,
            course: opt_view(self.course),
            kind: self.kind,
            deadline: self.deadline@,
            url: self.url@,
        }
    }
}

/// The views of a sequence of items.
pub open spec fn item_views(items: Seq<TodoItem>) -> Seq<TodoItemView> {
    items.map_values(|t: TodoItem| t@)
}

/// A refreshed to-do list and the interface that produced it.
#[derive(Debug, Clone)]
pub struct FetchResult {
    pub source: TodoSourceKind,
    pub items: Vec<TodoItem>,
}

} // verus!
