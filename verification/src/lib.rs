//! A path-addressed nested data store for form-driven documents, with a
//! template-rendering pipeline and a session state machine around them.
//!
//! The store owns a tree of dynamic values (`Node`) addressed by structured
//! paths (`PathExpr`); a scenario pairs a template source with a schema of
//! declared input fields; the session controller loads, edits, persists and
//! restores that state.

pub mod engine;
pub mod node;
pub mod path;
pub mod jsonio;
pub mod scenario;
pub mod session;
pub mod store;
pub mod text;
