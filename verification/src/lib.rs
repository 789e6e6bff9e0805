//! Verified core of a small file-drop service.
//!
//! Clients authenticate with a shared secret, upload files by name, and later
//! list or retrieve them. This crate holds the parts worth proving: the path
//! validator that keeps client-supplied filenames from escaping the storage
//! root, the credential gate, the field-by-field upload protocol, and the
//! listing and retrieval rules over a model of the stored files. The network
//! and filesystem plumbing around it lives outside the library.

pub mod auth;
pub mod path_check;
pub mod service;
pub mod storage;
pub mod upload;
