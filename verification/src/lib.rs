//! The protocol, permissions and bookkeeping of a small file cloud: a server that keeps a tree of
//! folders and files, and the clients that upload to it, download from it and share links.

pub mod auth;
pub mod client;
pub mod clock;
pub mod compact;
pub mod credentials;
pub mod delete_file;
pub mod digest;
pub mod errors;
pub mod file_transfer;
pub mod folder_laws;
pub mod get_file;
pub mod get_map;
pub mod guest_request_file;
pub mod ids;
pub mod manage_folder;
pub mod map_laws;
pub mod map_store;
pub mod map_tracker;
pub mod mapper;
pub mod password;
pub mod paths;
pub mod request;
pub mod response;
pub mod router;
pub mod sender;
pub mod share_link;
pub mod text;
pub mod transfer_laws;
pub mod wire;
