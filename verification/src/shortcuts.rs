//! The keys of the actions: which key each has, what may be given to it, and
//! what a key that is pressed does.
pub mod actions;
pub mod bindings;
pub mod keys;
pub mod laws;
pub mod meanings;
pub mod page;
pub mod spelling;

pub use actions::{
    category_at, default_at, fixed_at, group_at, menu_at, name_at, passes_settings, scope_at,
    CalloutType, InsertEdit, InsertShape, LineNoteEdit, ShortcutAction, ACTION_COUNT, BODY_COUNT,
    FILE_COUNT, INSERT_COUNT, RESERVED,
};
pub use bindings::{
    bindings, capture_key, conflict, encode_bindings, hear_key, label, reset_told, resolve,
    run_command, save_key, search_key, Capture, KeyAct, KeyAnswer, SaveKey,
};
pub use keys::{function_key, modifier_only};
pub use page::{fold_group, publish, ShortcutItem};
pub use spelling::{chord, is_function, key_token, normalize};
