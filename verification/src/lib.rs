//! Verified core of the Urška university assistant: text handling, programme
//! page extraction and rendering, name ranking, chunking, queues and prompts.

pub mod text;
pub mod programme;
pub mod bignum;
pub mod ranking;
pub mod chunking;
pub mod queue;
pub mod memory;
pub mod dom;
pub mod programme_page;
pub mod catalog;
pub mod site;
pub mod profile;
pub mod question;
pub mod retrieval;
pub mod conversation;
pub mod session;
