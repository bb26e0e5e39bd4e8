//! A group message log kept as a grow-only CRDT list, with the naming,
//! hashing and sealing of its store files.
#![allow(non_snake_case)]

pub mod crdt_list;
pub mod db;
pub mod db_order;
pub mod log;
pub mod message;
pub mod message_order;
pub mod naming;
pub mod seal;
pub mod stamp;
