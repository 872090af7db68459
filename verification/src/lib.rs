//! A verified core for a key-value store browser.
//!
//! Keys such as `user:1:name` are segmented on a delimiter and grouped into a
//! namespace tree; an expansion view mirrors the tree for display; an editor
//! state machine tracks the value being viewed, edited or created; and a
//! session table with generational indices holds one browsing session per
//! connected server, driven by a controller.

pub mod controller;
pub mod editor;
pub mod keys;
pub mod tree;
pub mod value;
pub mod view;
