//! The core of a reader for a ranked feed of stories, comment threads and
//! user pages that are kept by a remote, read-only source of items.
//!
//! The library decides and the program around it acts. Nothing here reads
//! from the network: each aggregation is a short sequence of steps, and each
//! step says which items to request next and takes in the responses. The
//! same holds of the application's state: a transition takes an event and
//! returns the commands that the surroundings are to carry out.
//!
//! - `types`, `content`, `error`: the data and its views.
//! - `text`, `routes`: decimal numbers and the paths of the pages.
//! - `cache`: the two least-recently-used stores.
//! - `fanout`, `batch`, `forest`: bounded fan-out, for previews and for
//!   comment trees.
//! - `api`: the aggregation steps.
//! - `app`: the navigation state machine.
//! - `page`: the hand-over of the state from the server to the client.

pub mod api;
pub mod app;
pub mod batch;
pub mod cache;
pub mod content;
pub mod error;
pub mod fanout;
pub mod forest;
pub mod page;
pub mod routes;
pub mod text;
pub mod types;
