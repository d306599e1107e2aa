//! A discussion board core: stories, threaded comments, and the rules
//! that listing, submitting and threading them obey.

pub mod api;
pub mod laws;
pub mod model;
pub mod order;
pub mod pagination;
pub mod store;
pub mod presentation;
pub mod validation;
