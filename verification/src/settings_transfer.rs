//! The presets of the settings, and carrying all settings from one place to
//! another.
//!
//! A preset holds the values of one page under a name. An export is one file
//! with everything: the settings, the keys, the presets and the word sets.
pub mod book;
pub mod deeds;
pub mod export;
pub mod laws;
pub mod presets;
pub mod steps;

pub use book::{
    choose_preset, current_values, delete, keys_of, overwrite, publish, save_as, PageView,
};
pub use export::{
    backup_name, decode_export, decode_settings, encode_export, encode_settings, export_sections,
    import, words_sections, Export, Import, EXPORT_EXTENSION, EXPORT_MAGIC, SECTION,
    SETTINGS_MAGIC,
};
pub use presets::{
    decode_presets, encode_presets, kind_of, Preset, PresetBook, PresetKind, CHOSEN_KEY,
    KEYS_SETTING, PRESETS_FILE, PRESETS_MAGIC, PRESET_KEY,
};
pub use steps::{
    ask_import, export_name, exported_told, import_answered, import_choices, import_heading,
    import_question, name_question, saved_told, unreadable_told, unwritten_told, ImportAsk,
};
