//! The editor state machine.
//!
//! Per session the editor is in one of three states: idle, editing the
//! value of one key, or composing a new key and value.  Actions that are
//! not listed for the current state are ignored, never an error.

use vstd::prelude::*;

use crate::value::RedisValue;

verus! {

/// The editor's state.
#[derive(Debug, Clone)]
pub enum EditorState {
    Idle,
    Editing { key: String, pending_value: String },
    Creating { pending_key: String, pending_value: String },
}

/// The state after selecting `key` and fetching its value: a plain string
/// opens the editor on it; a composite value or an absent key leaves the
/// editor idle.
pub open spec fn spec_select(key: String, fetched: RedisValue) -> EditorState {
    match fetched {
        RedisValue::String(s) => EditorState::Editing { key, pending_value: s },
        _ => EditorState::Idle,
    }
}

/// The state after typing `s` into the value box: only meaningful while
/// editing; ignored otherwise.
pub open spec fn spec_edit_value(e: EditorState, s: String) -> EditorState {
    match e {
        EditorState::Editing { key, pending_value } => EditorState::Editing {
            key,
            pending_value: s,
        },
        _ => e,
    }
}

/// The state after typing `s` into the new-key box: only meaningful while
/// creating; ignored otherwise.
pub open spec fn spec_edit_create_key(e: EditorState, s: String) -> EditorState {
    match e {
        EditorState::Creating { pending_key, pending_value } => EditorState::Creating {
            pending_key: s,
            pending_value,
        },
        _ => e,
    }
}

/// The state after typing `s` into the new-value box: only meaningful while
/// creating; ignored otherwise.
pub open spec fn spec_edit_create_value(e: EditorState, s: String) -> EditorState {
    match e {
        EditorState::Creating { pending_key, pending_value } => EditorState::Creating {
            pending_key,
            pending_value: s,
        },
        _ => e,
    }
}

/// Applies the select transition.
pub fn editor_after_select(key: String, fetched: RedisValue) -> (e: EditorState)
    ensures
        e == spec_select(key, fetched),
{
    match fetched {
        RedisValue::String(s) => EditorState::Editing { key, pending_value: s },
        _ => EditorState::Idle,
    }
}

/// Applies the edit-value transition.
pub fn editor_after_edit_value(e: EditorState, s: String) -> (r: EditorState)
    ensures
        r == spec_edit_value(e, s),
{
    match e {
        EditorState::Editing { key, pending_value: _ } => EditorState::Editing {
            key,
            pending_value: s,
        },
        other => other,
    }
}

/// Applies the edit-create-key transition.
pub fn editor_after_edit_create_key(e: EditorState, s: String) -> (r: EditorState)
    ensures
        r == spec_edit_create_key(e, s),
{
    match e {
        EditorState::Creating { pending_key: _, pending_value } => EditorState::Creating {
            pending_key: s,
            pending_value,
        },
        other => other,
    }
}

/// Applies the edit-create-value transition.
pub fn editor_after_edit_create_value(e: EditorState, s: String) -> (r: EditorState)
    ensures
        r == spec_edit_create_value(e, s),
{
    match e {
        EditorState::Creating { pending_key, pending_value: _ } => EditorState::Creating {
            pending_key,
            pending_value: s,
        },
        other => other,
    }
}

} // verus!
