//! Presets of settings, and exports of all of them.
use rfn_edit::settings_transfer::book::{
    choose_preset, current_values, delete, keys_of, overwrite, publish, save_as,
};
use rfn_edit::settings_transfer::export::{
    backup_name, decode_export, decode_settings, encode_export, encode_settings, export_sections,
    import, words_sections, Export, Import, EXPORT_MAGIC, SECTION,
};
use rfn_edit::settings_transfer::steps::{
    ask_import, export_name, exported_told, import_answered, import_choices, import_heading,
    import_question, name_question, saved_told, unreadable_told, unwritten_told, ImportAsk,
};
use rfn_edit::settings_transfer::presets::{
    decode_presets, encode_presets, kind_of, Preset, PresetBook, PresetKind, KEYS_SETTING,
    PRESETS_MAGIC,
};

#[test]
fn each_setting_belongs_to_one_page_or_none() {
    assert_eq!(kind_of("h.size"), Some(PresetKind::Editor));
    assert_eq!(kind_of("v.ink"), Some(PresetKind::Editor));
    assert_eq!(kind_of("wallpaper.path"), Some(PresetKind::Editor));
    assert_eq!(kind_of("terminal.font"), Some(PresetKind::Terminal));
    assert_eq!(kind_of("terminal.appearance.0"), Some(PresetKind::Terminal));
    assert_eq!(kind_of(KEYS_SETTING), Some(PresetKind::Keys));
    assert_eq!(kind_of("work.autosave"), None);
    assert_eq!(kind_of("terminal.shell.0"), Some(PresetKind::Terminal));
    assert_eq!(kind_of("terminal.default"), Some(PresetKind::Terminal));
    assert_eq!(kind_of("language"), None);
    assert_eq!(kind_of("ink.set.1"), None);
    assert_eq!(kind_of("left.size"), None);
}

fn sample() -> PresetBook {
    let presets = vec![
        Preset {
            kind: PresetKind::Editor,
            name: "執筆用".into(),
            values: vec![
                ("h.size".into(), "18".into()),
                ("h.paper".into(), "#fffff0".into()),
            ],
        },
        Preset {
            kind: PresetKind::Keys,
            name: "Emacs風".into(),
            values: vec![(KEYS_SETTING.into(), "0=Ctrl+Alt+O;3=Ctrl+Q".into())],
        },
    ];
    PresetBook {
        presets,
        chosen: [Some("執筆用".into()), None, None],
    }
}

#[test]
fn presets_come_back_as_written() {
    let book = sample();
    assert_eq!(decode_presets(&encode_presets(&book)), Some(book));
    assert_eq!(decode_presets("something else\n"), None);
    let raw = format!("{PRESETS_MAGIC}\nchosen: terminal\t黒\n");
    assert_eq!(decode_presets(&raw).unwrap().chosen, [None, None, None]);
}

#[test]
fn an_unreadable_preset_heading_takes_its_values_with_it() {
    let raw = format!(
        "{PRESETS_MAGIC}\npreset: nowhere\tx\nh.size: 1\npreset: editor\t読み返し用\nh.size: 20\n"
    );
    let presets = decode_presets(&raw).unwrap().presets;
    assert_eq!(presets.len(), 1);
    assert_eq!(presets[0].values, vec![("h.size".into(), "20".into())]);
}

#[test]
fn an_export_carries_every_part() {
    let words = "RFN-EDIT-WORDS 3\nnext: 3\nmode: 1 | 小説\ngroup: 2 | 人物 | #336699\nリオン\n[words]\n";
    let export = Export {
        settings: vec![
            ("h.size".into(), "18".into()),
            ("language".into(), "1".into()),
        ],
        keys: Some("0=Ctrl+Alt+O".into()),
        presets: sample(),
        words: Some(words.into()),
    };
    let written = encode_export(&export);
    let read = decode_export(&written, true).expect("reads back");
    assert_eq!(read.settings, export.settings);
    assert_eq!(read.keys, export.keys);
    assert_eq!(read.presets, export.presets);
    assert_eq!(
        read.words.as_deref().unwrap().trim_end_matches('\n'),
        words.trim_end_matches('\n')
    );
    let crlf = format!("\u{feff}{}", written.replace('\n', "\r\n"));
    assert_eq!(decode_export(&crlf, true).unwrap().presets, export.presets);
}

#[test]
fn an_export_with_a_broken_part_is_refused() {
    assert_eq!(decode_export("RFN-EDIT-SETTINGS 1\n", true), None);
    let broken = format!("{EXPORT_MAGIC}\n{SECTION}presets\nnot presets\n");
    assert_eq!(decode_export(&broken, true), None);
}

#[test]
fn a_preset_is_saved_chosen_and_dropped() {
    let mut book = PresetBook::default();
    let values = vec![("h.size".to_owned(), "18".to_owned())];
    assert_eq!(
        save_as(&mut book, PresetKind::Editor, " 夜 ", values).as_deref(),
        Some("夜")
    );
    let again = vec![("h.size".to_owned(), "20".to_owned())];
    let second = save_as(&mut book, PresetKind::Editor, "昼", again).unwrap();
    assert_eq!(second, "昼");
    assert_eq!(
        choose_preset(&mut book, PresetKind::Editor, "夜"),
        Some(vec![("h.size".to_owned(), "18".to_owned())])
    );
    let now = vec![("h.size".to_owned(), "18".to_owned())];
    let page = publish(&book, PresetKind::Editor, &now);
    assert_eq!(page.names.len(), 2);
    delete(&mut book, PresetKind::Editor, "夜");
    assert_eq!(book.presets.len(), 1);
    assert_eq!(book.chosen, [None, None, None]);
    overwrite(
        &mut book,
        PresetKind::Editor,
        "昼",
        vec![("h.size".to_owned(), "24".to_owned())],
    );
    assert_eq!(book.presets[0].values[0].1, "24");
}

#[test]
fn a_page_takes_its_own_values() {
    let values = vec![
        ("h.size".to_owned(), "18".to_owned()),
        ("terminal.font".to_owned(), "Consolas".to_owned()),
        ("language".to_owned(), "1".to_owned()),
    ];
    let own = current_values(&values, "0=Ctrl+Alt+O", PresetKind::Terminal);
    assert_eq!(own, vec![("terminal.font".to_owned(), "Consolas".to_owned())]);
    let keys = current_values(&values, "0=Ctrl+Alt+O", PresetKind::Keys);
    assert_eq!(keys_of(&keys).as_deref(), Some("0=Ctrl+Alt+O"));
    for number in 0..3 {
        let kind = PresetKind::from_number(number).unwrap();
        assert_eq!(kind.number() as i32, number);
        assert_eq!(PresetKind::read(kind.written()), Some(kind));
    }
    assert_eq!(PresetKind::from_number(3), None);
}

#[test]
fn settings_come_back_as_they_were_written() {
    let values = vec![
        ("h.size".to_owned(), "18".to_owned()),
        ("language".to_owned(), "1".to_owned()),
    ];
    assert_eq!(decode_settings(&encode_settings(&values)), Some(values));
    assert_eq!(decode_settings("something else\n"), None);
}

#[test]
fn an_import_replaces_only_what_was_kept_aside() {
    assert!(matches!(import(Export::default(), false), Import::Refused));
    assert!(matches!(import(Export::default(), true), Import::Replace(_)));
    assert_eq!(backup_name(), "before-import.rfnexport");
    let export = Export { words: Some("w\n".into()), ..Export::default() };
    let parts = export_sections(&encode_export(&export)).unwrap();
    assert_eq!(words_sections(&parts).len(), 1);
    assert!(decode_export(&encode_export(&export), false).is_none());
}

/// Settings as a screen holds them, with the presets.
struct Settings {
    values: Vec<(String, String)>,
    keys: String,
    book: PresetBook,
}

impl Settings {
    fn new() -> Self {
        let start = [("paper.random", "0"), ("terminal.size", "12"), ("left.size", "12")];
        Settings {
            values: start.map(|(name, value)| (name.to_owned(), value.to_owned())).to_vec(),
            keys: String::new(),
            book: PresetBook::default(),
        }
    }

    fn set(&mut self, name: &str, value: &str) {
        for held in &mut self.values {
            if held.0 == name {
                held.1 = value.to_owned();
            }
        }
    }

    fn get(&self, name: &str) -> &str {
        &self.values.iter().find(|held| held.0 == name).unwrap().1
    }

    fn now(&self, kind: PresetKind) -> Vec<(String, String)> {
        current_values(&self.values, &self.keys, kind)
    }

    fn save_as(&mut self, kind: PresetKind, name: &str) {
        let values = self.now(kind);
        save_as(&mut self.book, kind, name, values);
    }

    fn pick(&mut self, kind: PresetKind, name: &str) {
        let Some(values) = choose_preset(&mut self.book, kind, name) else {
            return;
        };
        if kind == PresetKind::Keys {
            if let Some(keys) = keys_of(&values) {
                self.keys = keys;
            }
        } else {
            for (name, value) in &values {
                self.set(name, value);
            }
        }
    }

    fn current(&self, kind: PresetKind) -> String {
        publish(&self.book, kind, &self.now(kind)).current
    }

    fn modified(&self, kind: PresetKind) -> bool {
        publish(&self.book, kind, &self.now(kind)).modified
    }
}

#[test]
fn a_preset_puts_back_only_its_own_page() {
    let mut held = Settings::new();
    held.set("paper.random", "1");
    held.set("terminal.size", "15");
    held.save_as(PresetKind::Editor, "執筆用");
    held.save_as(PresetKind::Terminal, "黒");
    assert_eq!(held.current(PresetKind::Editor), "執筆用");
    assert_eq!(held.current(PresetKind::Terminal), "黒");
    assert!(!held.modified(PresetKind::Editor));
    held.set("paper.random", "2");
    held.set("terminal.size", "20");
    held.set("left.size", "15");
    assert_eq!(held.current(PresetKind::Editor), "執筆用");
    assert!(held.modified(PresetKind::Editor));
    assert!(held.modified(PresetKind::Terminal));

    held.pick(PresetKind::Editor, "執筆用");
    assert_eq!(held.get("paper.random"), "1");
    assert_eq!(held.get("terminal.size"), "20");
    assert_eq!(held.get("left.size"), "15");
    assert_eq!(held.current(PresetKind::Editor), "執筆用");
    assert!(!held.modified(PresetKind::Editor));
    held.pick(PresetKind::Terminal, "黒");
    assert_eq!(held.get("terminal.size"), "15");

    let read = decode_presets(&encode_presets(&held.book)).unwrap();
    let names: Vec<_> = read.presets.into_iter().map(|preset| preset.name).collect();
    assert_eq!(names, ["執筆用", "黒"]);

    held.keys = "0=Ctrl+Alt+O".to_owned();
    held.save_as(PresetKind::Keys, "自分の");
    held.keys = String::new();
    assert!(held.modified(PresetKind::Keys));
    held.pick(PresetKind::Keys, "自分の");
    assert_eq!(held.keys, "0=Ctrl+Alt+O");
    assert_eq!(held.current(PresetKind::Keys), "自分の");

    held.set("paper.random", "0");
    assert!(held.modified(PresetKind::Editor));
    let (current, now) = (held.current(PresetKind::Editor), held.now(PresetKind::Editor));
    overwrite(&mut held.book, PresetKind::Editor, &current, now);
    assert!(!held.modified(PresetKind::Editor));
    held.set("paper.random", "2");
    held.pick(PresetKind::Editor, "執筆用");
    assert_eq!(held.get("paper.random"), "0");
    let now = held.now(PresetKind::Editor);
    assert_eq!(publish(&held.book, PresetKind::Editor, &now).names.len(), 1);
    delete(&mut held.book, PresetKind::Editor, "執筆用");
    assert_eq!(publish(&held.book, PresetKind::Editor, &now).names.len(), 0);
    assert_eq!(held.current(PresetKind::Editor), "");
}

#[test]
fn presets_with_the_same_values_are_each_chosen() {
    let mut held = Settings::new();
    held.save_as(PresetKind::Editor, "A");
    held.save_as(PresetKind::Editor, "B");
    assert_eq!(held.current(PresetKind::Editor), "B");
    held.pick(PresetKind::Editor, "A");
    assert_eq!(held.current(PresetKind::Editor), "A");
    held.pick(PresetKind::Editor, "B");
    assert_eq!(held.current(PresetKind::Editor), "B");
    assert!(!held.modified(PresetKind::Editor));
    let book = decode_presets(&encode_presets(&held.book)).unwrap();
    assert_eq!(book.chosen[0].as_deref(), Some("B"));
}

#[test]
fn an_import_is_asked_about_and_told_of() {
    let export = Export { keys: Some("0=Ctrl+Alt+O".into()), ..Export::default() };
    let raw = Some(encode_export(&export));
    let ImportAsk::Ask(read) = ask_import(&raw, true) else {
        panic!("an export is asked about");
    };
    assert_eq!(read.keys.as_deref(), Some("0=Ctrl+Alt+O"));
    assert!(matches!(ask_import(&None, true), ImportAsk::Unreadable));
    assert!(matches!(ask_import(&Some("text".into()), true), ImportAsk::Unreadable));
    let (step, told) = import_answered(read, &None, true);
    assert!(matches!(step, Import::Replace(_)));
    assert_eq!(told, "Imported the settings");
    let (step, told) = import_answered(export, &Some("満杯".into()), false);
    assert!(matches!(step, Import::Refused));
    assert_eq!(told, "いまの設定を控えられないので、取り込みませんでした: 満杯");
    assert_eq!(export_name(), "RFN Edit Settings.rfnexport");
    assert!(import_question(true).contains(backup_name()));
    assert_eq!(import_choices(false), ["置き換える", "キャンセル"]);
    assert_eq!(import_heading(true), "Choose a Settings File to Import");
    assert_eq!(unreadable_told(false), "RFN Editの設定のファイルとして読めませんでした");
    assert_eq!(exported_told(&None, true), "Exported the settings");
    assert_eq!(exported_told(&Some("x".into()), true), "Cannot export the settings: x");
    assert_eq!(saved_told("夜", false), "プリセット「夜」を保存しました");
    assert_eq!(unwritten_told("x", true), "Cannot write the presets: x");
    assert!(name_question(true).starts_with("Preset name\n\n"));
}
