//! Client-side core of a student list view: the application state, its
//! transitions on user events, the text shown for each row, and the JSON
//! wire format used to talk to the remote student store.
//!
//! The surrounding program (the browser shell) owns the event loop and the
//! HTTP transport; it feeds user events and fetch results into this crate
//! and performs the requests that the transition functions hand back.

pub mod chars;
pub mod decode;
pub mod json;
pub mod laws;
pub mod model;
pub mod numtext;
pub mod render;
pub mod roundtrip;
pub mod state;
