//! The client's side: the messages that it sends, and what it makes of the answers.

pub mod app;
pub mod auth;
pub mod create_folder;
pub mod get_map;
pub mod guest_request_file;
pub mod numbers;
pub mod queues;
pub mod reinit;
pub mod request_file;
pub mod share_link;
