//! Tests of the status codec, the identifier codec and the HTTP decisions.
use todo_backend::http::{
    created_response, layer_error_status, list_response, mutation_status, parse_todo_id,
    todo_response, STATUS_BAD_REQUEST, STATUS_INTERNAL_SERVER_ERROR, STATUS_NOT_FOUND, STATUS_OK,
    STATUS_REQUEST_TIMEOUT,
};
use todo_backend::status::{status_from_str, Status};
use todo_backend::todo::{StorageError, Todo};
use todo_backend::todo_id::{todo_id_from_str, ValidationError};

#[test]
fn status_decodes_done() {
    assert_eq!(status_from_str("DONE"), Status::Done);
}

#[test]
fn status_decodes_not_done() {
    assert_eq!(status_from_str("NOT_DONE"), Status::NotDone);
}

// The decoder is deliberately lenient: any string that is not exactly
// "DONE" — including misspellings, other casings and empty input — falls
// back to NotDone instead of being rejected.
#[test]
fn status_decodes_anything_else_to_not_done() {
    assert_eq!(status_from_str("anything-else"), Status::NotDone);
    assert_eq!(status_from_str("done"), Status::NotDone);
    assert_eq!(status_from_str("DONE "), Status::NotDone);
    assert_eq!(status_from_str(""), Status::NotDone);
}

#[test]
fn status_encodes_both_values() {
    assert_eq!(Status::Done.as_str(), "DONE");
    assert_eq!(Status::NotDone.as_str(), "NOT_DONE");
}

#[test]
fn status_round_trips_through_its_string() {
    assert_eq!(status_from_str(Status::Done.as_str()), Status::Done);
    assert_eq!(status_from_str(Status::NotDone.as_str()), Status::NotDone);
}

// The original request payload: a JSON object whose "status" field decodes
// through the lenient status codec.
#[test]
fn test_serde_status() {
    let s = r#"{
            "status":"DONE"
        }"#;
    let v: serde_json::Value = serde_json::from_str(s).unwrap();
    let status = status_from_str(v.get("status").unwrap().as_str().unwrap());
    assert_eq!(status, Status::Done);
}

#[test]
fn id_parses_24_hex_chars() {
    let id = todo_id_from_str("0102030405060708090a0b0c").unwrap();
    assert_eq!(
        id.as_bytes().as_slice(),
        &[1u8, 2, 3, 4, 5, 6, 7, 8, 9, 10, 11, 12]
    );
}

#[test]
fn id_accepts_upper_case_digits() {
    let id = todo_id_from_str("FFEEDDCCBBAA998877665544").unwrap();
    assert_eq!(
        id.as_bytes().as_slice(),
        &[0xff_u8, 0xee, 0xdd, 0xcc, 0xbb, 0xaa, 0x99, 0x88, 0x77, 0x66, 0x55, 0x44]
    );
}

#[test]
fn id_rejects_malformed_strings() {
    assert_eq!(
        todo_id_from_str("not-a-valid-id").unwrap_err(),
        ValidationError {}
    );
    assert!(todo_id_from_str("").is_err());
    assert!(todo_id_from_str("0102030405060708090a0b").is_err());
    assert!(todo_id_from_str("0102030405060708090a0b0c0d").is_err());
    assert!(todo_id_from_str("0102030405060708090a0bzz").is_err());
}

#[test]
fn id_clone_keeps_the_bytes() {
    let id = todo_id_from_str("507f1f77bcf86cd799439011").unwrap();
    let copy = id.clone();
    assert_eq!(id.as_bytes(), copy.as_bytes());
}

#[test]
fn id_orders_as_big_endian_integer() {
    let one = todo_id_from_str("000000000000000000000001").unwrap();
    let big = todo_id_from_str("000000000000000000000100").unwrap();
    assert_eq!(one.key(), 1);
    assert_eq!(big.key(), 256);
    assert!(one.key() < big.key());
}

#[test]
fn malformed_path_id_answers_400() {
    assert_eq!(
        parse_todo_id("not-a-valid-id").unwrap_err(),
        STATUS_BAD_REQUEST
    );
    assert!(parse_todo_id("507f1f77bcf86cd799439011").is_ok());
}

#[test]
fn missing_todo_answers_404() {
    let out = todo_response(Ok(None));
    assert_eq!(out.unwrap_err(), STATUS_NOT_FOUND);
    assert_eq!(mutation_status(&Ok(None)), STATUS_NOT_FOUND);
}

#[test]
fn storage_failure_answers_500() {
    assert!(matches!(
        todo_response(Err(StorageError {})),
        Err(STATUS_INTERNAL_SERVER_ERROR)
    ));
    assert_eq!(
        mutation_status(&Err(StorageError {})),
        STATUS_INTERNAL_SERVER_ERROR
    );
    let listed: Result<Vec<Todo>, StorageError> = Err(StorageError {});
    assert_eq!(list_response(listed).unwrap_err(), STATUS_INTERNAL_SERVER_ERROR);
    let created: Result<Todo, StorageError> = Err(StorageError {});
    assert_eq!(
        created_response(created).unwrap_err(),
        STATUS_INTERNAL_SERVER_ERROR
    );
}

#[test]
fn successful_write_answers_200() {
    let t = Todo {
        id: None,
        text: String::from("x"),
        status: Status::NotDone,
    };
    assert_eq!(mutation_status(&Ok(Some(t))), STATUS_OK);
}

#[test]
fn layer_errors_answer_408_or_500() {
    assert_eq!(layer_error_status(true), STATUS_REQUEST_TIMEOUT);
    assert_eq!(layer_error_status(false), STATUS_INTERNAL_SERVER_ERROR);
}
