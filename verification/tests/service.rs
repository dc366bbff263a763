//! Tests of the persistence service's collection semantics.
use todo_backend::http::{
    created_response, mutation_status, todo_response, STATUS_NOT_FOUND, STATUS_OK,
};
use todo_backend::status::{status_from_str, Status};
use todo_backend::store::TodoService;
use todo_backend::todo::{Todo, UpdateTodoStatusRequest, UpdateTodoTextRequest};
use todo_backend::todo_id::{todo_id_from_str, TodoId};

fn id(s: &str) -> TodoId {
    todo_id_from_str(s).unwrap()
}

fn todo(text: &str, status: Status) -> Todo {
    Todo {
        id: None,
        text: String::from(text),
        status,
    }
}

#[test]
fn empty_service_lists_nothing() {
    let service = TodoService::default();
    assert!(service.find().is_empty());
}

#[test]
fn created_todo_is_read_back_equal() {
    let mut service = TodoService::default();
    let created = service
        .create(todo("buy milk", Status::NotDone), id("507f1f77bcf86cd799439011"))
        .unwrap();
    assert_eq!(created.text, "buy milk");
    assert_eq!(created.status, Status::NotDone);
    assert_eq!(
        created.id.as_ref().unwrap().as_bytes(),
        id("507f1f77bcf86cd799439011").as_bytes()
    );

    let read = service.get(id("507f1f77bcf86cd799439011")).unwrap();
    assert_eq!(read.text, created.text);
    assert_eq!(read.status, created.status);
}

#[test]
fn create_discards_an_identifier_the_input_carried() {
    let mut service = TodoService::default();
    let mut input = todo("walk dog", Status::Done);
    input.id = Some(id("111111111111111111111111"));
    let created = service.create(input, id("222222222222222222222222")).unwrap();
    assert_eq!(
        created.id.as_ref().unwrap().as_bytes(),
        id("222222222222222222222222").as_bytes()
    );
    assert!(service.get(id("111111111111111111111111")).is_none());
}

#[test]
fn create_rejects_a_taken_identifier() {
    let mut service = TodoService::default();
    service
        .create(todo("first", Status::NotDone), id("507f1f77bcf86cd799439011"))
        .unwrap();
    let second = service.create(todo("second", Status::NotDone), id("507f1f77bcf86cd799439011"));
    assert!(second.is_err());
    let listed = service.find();
    assert_eq!(listed.len(), 1);
    assert_eq!(listed[0].text, "first");
}

#[test]
fn get_of_an_absent_identifier_is_none() {
    let service = TodoService::default();
    assert!(service.get(id("507f1f77bcf86cd799439011")).is_none());
}

#[test]
fn list_is_sorted_ascending_by_id_whatever_the_insertion_order() {
    let mut service = TodoService::default();
    let ids = [
        "cccccccccccccccccccccccc",
        "0102030405060708090a0b0c",
        "ffeeddccbbaa998877665544",
        "000000000000000000000001",
        "507f1f77bcf86cd799439011",
    ];
    for (n, hex) in ids.iter().enumerate() {
        service.create(todo(&format!("t{}", n), Status::NotDone), id(hex)).unwrap();
    }
    let listed = service.find();
    assert_eq!(listed.len(), ids.len());
    for pair in listed.windows(2) {
        let a = pair[0].id.as_ref().unwrap().as_bytes();
        let b = pair[1].id.as_ref().unwrap().as_bytes();
        assert!(a < b);
    }
}

#[test]
fn update_text_rewrites_only_the_text() {
    let mut service = TodoService::default();
    service
        .create(todo("old words", Status::Done), id("507f1f77bcf86cd799439011"))
        .unwrap();
    let updated = service
        .update_text(
            id("507f1f77bcf86cd799439011"),
            UpdateTodoTextRequest {
                text: String::from("new words"),
            },
        )
        .unwrap();
    assert_eq!(updated.text, "new words");
    assert_eq!(updated.status, Status::Done);
    let read = service.get(id("507f1f77bcf86cd799439011")).unwrap();
    assert_eq!(read.text, "new words");
    assert_eq!(read.status, Status::Done);
}

#[test]
fn update_of_an_absent_identifier_is_none() {
    let mut service = TodoService::default();
    let by_text = service.update_text(
        id("507f1f77bcf86cd799439011"),
        UpdateTodoTextRequest {
            text: String::from("x"),
        },
    );
    assert!(by_text.is_none());
    let by_status = service.update_status(
        id("507f1f77bcf86cd799439011"),
        UpdateTodoStatusRequest {
            status: Status::Done,
        },
    );
    assert!(by_status.is_none());
}

#[test]
fn remove_after_remove_is_absent() {
    let mut service = TodoService::default();
    service
        .create(todo("short lived", Status::NotDone), id("507f1f77bcf86cd799439011"))
        .unwrap();
    let first = service.remove(id("507f1f77bcf86cd799439011"));
    assert_eq!(first.unwrap().text, "short lived");
    let second = service.remove(id("507f1f77bcf86cd799439011"));
    assert!(second.is_none());
    assert_eq!(
        mutation_status(&Ok(second)),
        STATUS_NOT_FOUND
    );
}

// The full request sequence: create, read the status, flip it, read it
// again, delete, and find the todo gone.
#[test]
fn crud_scenario_over_one_todo() {
    let mut service = TodoService::default();
    let the_id = id("507f1f77bcf86cd799439011");

    // POST {"text":"buy milk","status":"NOT_DONE"} answers 200 and assigns an id.
    let posted = service.create(
        todo("buy milk", status_from_str("NOT_DONE")),
        the_id.clone(),
    );
    let created = created_response(posted).unwrap();
    let assigned = created.id.as_ref().unwrap();
    assert_eq!(assigned.as_bytes(), the_id.as_bytes());

    // GET the status subpath: 200 with {"status":"NOT_DONE"}.
    let read = todo_response(Ok(service.get(the_id.clone()))).unwrap();
    assert_eq!(read.status.as_str(), "NOT_DONE");

    // PUT {"status":"DONE"}: 200.
    let put = service.update_status(
        the_id.clone(),
        UpdateTodoStatusRequest {
            status: status_from_str("DONE"),
        },
    );
    assert_eq!(mutation_status(&Ok(put)), STATUS_OK);

    // GET again: {"status":"DONE"}.
    let read = todo_response(Ok(service.get(the_id.clone()))).unwrap();
    assert_eq!(read.status.as_str(), "DONE");

    // DELETE: 200.
    let removed = service.remove(the_id.clone());
    assert_eq!(mutation_status(&Ok(removed)), STATUS_OK);

    // GET once more: 404.
    let gone = todo_response(Ok(service.get(the_id)));
    assert_eq!(gone.unwrap_err(), STATUS_NOT_FOUND);
}
