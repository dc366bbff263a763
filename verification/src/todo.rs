//! The todo data model: a todo item, the partial-update request payloads,
//! and the storage failure marker.
use vstd::prelude::*;

use crate::status::Status;
use crate::todo_id::TodoId;

verus! {

/// A todo item. The identifier is absent until the item is persisted; the
/// store assigns it on insert and it is immutable afterwards, while `text`
/// and `status` are independently mutable.
#[derive(Debug)]
pub struct Todo {
    pub id: Option<TodoId>,
    pub text: String,
    pub status: Status,
}

/// The mathematical value of a [`Todo`]: the identifier bytes, the text's
/// characters and the status.
pub ghost struct TodoView {
    pub id: Option<Seq<u8>>,
    pub text: Seq<char>,
    pub status: Status,
}

impl View for Todo {
    type V = TodoView;

    open spec fn view(&self) -> TodoView {
        TodoView {
            id: match self.id {
                Some(i) => Some(i@),
                None => None,
            },
            text: self.text@,
            status: self.status,
        }
    }
}

impl Clone for Todo {
    /// A clone denotes the same todo: identifier, text and status are kept.
    fn clone(&self) -> (r: Self)
        ensures
            r@ == self@,
    {
        Todo {
            id: match &self.id {
                Some(i) => Some(i.clone()),
                None => None,
            },
            text: self.text.clone(),
            status: self.status,
        }
    }
}

/// Partial-update payload carrying a todo's new text.
#[derive(Debug)]
pub struct UpdateTodoTextRequest {
    pub text: String,
}

/// Partial-update payload carrying a todo's new status.
#[derive(Debug)]
pub struct UpdateTodoStatusRequest {
    pub status: Status,
}

/// A database failure: connectivity, transaction or driver trouble. The
/// detail is the caller's to log; every such failure maps to the same
/// HTTP answer.
#[derive(Clone, Copy, Debug, PartialEq, Eq, Structural)]
pub struct StorageError {}

} // verus!
