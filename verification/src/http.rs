//! The HTTP decisions of the route handlers: how an identifier taken from
//! the request path, and what the persistence service answered, map to a
//! status code and a body. The transport — routing, JSON marshalling, the
//! socket — stays with the caller; these functions take the values it read
//! and say what to answer.
use vstd::prelude::*;

use crate::todo::{StorageError, Todo};
use crate::todo_id::{id_bytes_of, todo_id_from_str, valid_id_string, TodoId};

verus! {

pub const STATUS_OK: u16 = 200;

pub const STATUS_BAD_REQUEST: u16 = 400;

pub const STATUS_NOT_FOUND: u16 = 404;

pub const STATUS_REQUEST_TIMEOUT: u16 = 408;

pub const STATUS_INTERNAL_SERVER_ERROR: u16 = 500;

/// Parse the identifier segment of a request path: a malformed identifier
/// answers 400, exactly as a well-formed one never does.
pub fn parse_todo_id(id: &str) -> (r: Result<TodoId, u16>)
    ensures
        r is Ok <==> valid_id_string(id@),
        r matches Ok(t) ==> t@ == id_bytes_of(id@) && t.wf(),
        r matches Err(c) ==> c == STATUS_BAD_REQUEST,
{
    match todo_id_from_str(id) {
        Ok(t) => Ok(t),
        Err(_) => Err(STATUS_BAD_REQUEST),
    }
}

/// The answer to a collection read: the listed todos on success, 500 when
/// the store failed.
pub fn list_response(r: Result<Vec<Todo>, StorageError>) -> (out: Result<Vec<Todo>, u16>)
    ensures
        out matches Ok(v) ==> (r matches Ok(w) && v == w),
        out matches Err(c) ==> r is Err && c == STATUS_INTERNAL_SERVER_ERROR,
        out is Ok <==> r is Ok,
{
    match r {
        Ok(v) => Ok(v),
        Err(_) => Err(STATUS_INTERNAL_SERVER_ERROR),
    }
}

/// The answer to a creation: the stored todo on success, 500 when the store
/// failed.
pub fn created_response(r: Result<Todo, StorageError>) -> (out: Result<Todo, u16>)
    ensures
        out matches Ok(t) ==> (r matches Ok(u) && t == u),
        out matches Err(c) ==> r is Err && c == STATUS_INTERNAL_SERVER_ERROR,
        out is Ok <==> r is Ok,
{
    match r {
        Ok(t) => Ok(t),
        Err(_) => Err(STATUS_INTERNAL_SERVER_ERROR),
    }
}

/// The answer to a single-todo read: the todo when found, 404 when the
/// identifier names nothing, 500 when the store failed.
pub fn todo_response(r: Result<Option<Todo>, StorageError>) -> (out: Result<Todo, u16>)
    ensures
        out matches Ok(t) ==> (r matches Ok(o) && o == Some(t)),
        out matches Err(c) ==> (r matches Ok(o) && o is None && c == STATUS_NOT_FOUND) || (
        r is Err && c == STATUS_INTERNAL_SERVER_ERROR),
        out is Ok <==> (r matches Ok(o) && o is Some),
{
    match r {
        Ok(Some(t)) => Ok(t),
        Ok(None) => Err(STATUS_NOT_FOUND),
        Err(_) => Err(STATUS_INTERNAL_SERVER_ERROR),
    }
}

/// The status a write answers with: 200 when the identified todo was
/// written, 404 when the identifier names nothing, 500 when the store
/// failed. Shared by the text update, the status update and the deletion.
pub fn mutation_status(r: &Result<Option<Todo>, StorageError>) -> (code: u16)
    ensures
        code == STATUS_OK <==> (r matches Ok(o) && o is Some),
        code == STATUS_NOT_FOUND <==> (r matches Ok(o) && o is None),
        code == STATUS_INTERNAL_SERVER_ERROR <==> r is Err,
{
    match r {
        Ok(Some(_)) => STATUS_OK,
        Ok(None) => STATUS_NOT_FOUND,
        Err(_) => STATUS_INTERNAL_SERVER_ERROR,
    }
}

/// The status an error of the routing layers answers with: a request that
/// ran over its time answers 408, any other layer failure 500.
pub fn layer_error_status(timed_out: bool) -> (code: u16)
    ensures
        code == if timed_out {
            STATUS_REQUEST_TIMEOUT
        } else {
            STATUS_INTERNAL_SERVER_ERROR
        },
{
    if timed_out {
        STATUS_REQUEST_TIMEOUT
    } else {
        STATUS_INTERNAL_SERVER_ERROR
    }
}

} // verus!
