//! A small todo backend: the data model, identifier codec, collection
//! semantics and HTTP status decisions of a CRUD service, each with a
//! verified contract. Networking and database traffic stay outside the
//! library; callers hand in plain values and take plain values back.
pub mod http;
pub mod status;
pub mod store;
pub mod todo;
pub mod todo_id;
