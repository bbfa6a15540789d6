//! The keys of the actions.
use rfn_edit::shortcuts::{
    bindings, capture_key, category_at, chord, conflict, default_at, encode_bindings, fixed_at,
    fold_group, function_key, group_at, hear_key, is_function, key_token, label, menu_at,
    modifier_only, name_at, normalize, passes_settings, publish, reset_told, resolve, run_command,
    save_key, scope_at, search_key, Capture, InsertShape, KeyAct, KeyAnswer, SaveKey, ShortcutAction, ACTION_COUNT,
    BODY_COUNT, FILE_COUNT,
};

#[test]
fn removed_new_tab_binding_does_not_shift_following_ids() {
    assert!(bindings("18=Ctrl+Alt+N;19=Ctrl+Alt+B")[18].is_empty());
    assert_eq!(
        resolve("18=Ctrl+Alt+N;19=Ctrl+Alt+B", 0, "n", true, true, false),
        -1
    );
    assert_eq!(
        resolve("18=Ctrl+Alt+N;19=Ctrl+Alt+B", 0, "b", true, true, false),
        19
    );
}
#[test]
fn settings_validate_and_roundtrip() {
    assert_eq!(normalize("ctrl+alt+s").as_deref(), Some("Ctrl+Alt+S"));
    assert!(normalize("S").is_none());
    assert!(normalize("Ctrl+A").is_none());
    assert_eq!(bindings("1=Ctrl+Alt+S")[1], "Ctrl+Alt+S");
    assert_eq!(bindings("1=Ctrl+O")[1], "Ctrl+S");
}
#[test]
fn scopes_allow_reuse_but_body_categories_conflict() {
    let keys = bindings("1=Ctrl+Alt+S;38=Ctrl+Alt+S");
    assert_eq!(keys[1], "Ctrl+Alt+S");
    assert_eq!(keys[38], "Ctrl+Alt+S");
    assert_eq!(
        resolve("1=Ctrl+Alt+S;38=Ctrl+Alt+S", 0, "s", true, true, false),
        1
    );
    assert_eq!(
        resolve("1=Ctrl+Alt+S;38=Ctrl+Alt+S", 1, "s", true, true, false),
        38
    );
    assert_eq!(conflict(&keys, 24, "Ctrl+Alt+S"), Some(1));
    assert!(conflict(&keys, 10, "").is_none());
}
#[test]
fn modified_emacs_and_tab_keys_consume_the_old_binding() {
    assert_eq!(resolve("24=Ctrl+Alt+K", 0, "k", true, false, false), -2);
    assert_eq!(resolve("24=Ctrl+Alt+K", 0, "k", true, true, false), 24);
    assert_eq!(resolve("38=Ctrl+Alt+C", 1, "C", true, false, true), -2);
    assert_eq!(resolve("38=Ctrl+Alt+C", 1, "c", true, true, false), 38);
    let tab: slint::SharedString = slint::platform::Key::Tab.into();
    assert_eq!(resolve("", 0, &tab, true, false, true), 12);
    assert_eq!(
        chord(" ", true, false, true).as_deref(),
        Some("Ctrl+Shift+Space")
    );
    for fixed in ["Ctrl+C", "Ctrl+X", "Ctrl+V", "Ctrl+A"] {
        assert!(normalize(fixed).is_none());
    }
    assert_eq!(resolve("", 1, "k", true, false, false), -1);
}
#[test]
fn modifiers_do_not_become_letters() {
        let settings = "42=Ctrl+Alt+R;43=Ctrl+Alt+P";
    for key in [
        slint::platform::Key::Shift,
        slint::platform::Key::ShiftR,
        slint::platform::Key::Control,
        slint::platform::Key::ControlR,
        slint::platform::Key::Alt,
        slint::platform::Key::AltGr,
        slint::platform::Key::Meta,
        slint::platform::Key::MetaR,
        slint::platform::Key::CapsLock,
    ] {
        let text: slint::SharedString = key.into();
        for scope in [0, 1] {
            assert_eq!(resolve(settings, scope, &text, true, true, false), -2);
            assert!(chord(&text, true, true, false).is_none());
        }
    }
    assert_eq!(resolve(settings, 0, "r", true, true, false), 42);
    assert_eq!(resolve(settings, 0, "p", true, true, false), 43);
    assert_eq!(resolve(settings, 0, "r", true, false, false), -1);
}

#[test]
fn menu_actions_start_unassigned_except_new_file() {
    let keys = bindings("");
    assert_eq!(keys[BODY_COUNT], "Ctrl+N");
    assert_eq!(keys[BODY_COUNT + 1], "");
    for (id, key) in keys.iter().enumerate().skip(BODY_COUNT) {
        let expected = default_at(id);
        assert_eq!(key, expected, "{id}");
    }
}

#[test]
fn an_assigned_menu_action_runs_and_an_unassigned_one_does_not() {
    let new_file = BODY_COUNT as i32;
    let insert = new_file + FILE_COUNT as i32;
    let raw = format!("{insert}=Ctrl+Shift+U");
    assert_eq!(resolve(&raw, 0, "u", true, false, true), insert);
    assert_eq!(resolve("", 0, "u", true, false, true), -1);
    assert_eq!(resolve("", 0, "n", true, false, false), new_file);
}

#[test]
fn insert_actions_cover_every_shape_once() {
    let mut used = Vec::new();
    for id in BODY_COUNT + FILE_COUNT..ACTION_COUNT {
        match menu_at(id).unwrap() {
            ShortcutAction::Insert(shape) => used.push(shape),
            ShortcutAction::Bullets(_) | ShortcutAction::NumberedList | ShortcutAction::Renumber => {}
            other => panic!("not an action of the insert menu: {other:?}"),
        }
    }
    for at in 0..used.len() {
        let count = used.iter().filter(|shape| **shape == used[at]).count();
        assert_eq!(count, 1, "{:?}", used[at]);
    }
    let edits = used
        .iter()
        .filter(|shape| matches!(shape, InsertShape::Edit(_)))
        .count();
    let notes = used
        .iter()
        .filter(|shape| matches!(shape, InsertShape::Line(_)))
        .count();
    assert_eq!(edits, 31);
    assert_eq!(notes, 18);
    for shape in [InsertShape::Table, InsertShape::PageBreak] {
        let count = used.iter().filter(|used| **used == shape).count();
        assert_eq!(count, 1, "{shape:?}");
    }
    assert_eq!(used.len(), edits + notes + 2);
}

#[test]
fn only_modifier_keys_and_function_keys_are_accepted() {
    for key in [
        "Ctrl+Shift+A",
        "Ctrl+Alt+5",
        "Alt+Shift+F",
        "F1",
        "F12",
        "Shift+F5",
        "Ctrl+Alt+Left",
    ] {
        assert!(normalize(key).is_some(), "{key} was refused");
    }
    for key in [
        "A",
        "Shift+A",
        "5",
        "Ctrl+C",
        "Ctrl+Shift+C",
        "F3",
        "Shift+F3",
        "Alt+Tab",
        "Alt+F4",
        "Ctrl+Alt+Del",
        "Ctrl+Shift+@",
    ] {
        assert!(normalize(key).is_none(), "{key} was accepted");
    }
}

#[test]
fn function_keys_are_read_from_the_key_itself() {
    let f5: slint::SharedString = slint::platform::Key::F5.into();
    assert_eq!(chord(&f5, false, false, false).as_deref(), Some("F5"));
    assert_eq!(chord(&f5, true, false, false).as_deref(), Some("Ctrl+F5"));
    let f12: slint::SharedString = slint::platform::Key::F12.into();
    assert_eq!(
        chord(&f12, true, true, false).as_deref(),
        Some("Ctrl+Alt+F12")
    );
    assert!(chord("a", false, false, false).is_none());
}

#[test]
fn only_new_panes_pass_the_settings_tab() {
    assert!(passes_settings(0), "ファイルを開く");
    assert!(passes_settings(BODY_COUNT as i32), "新規文書");
    assert!(passes_settings(BODY_COUNT as i32 + 1), "新しいTerminal");
    let insert = (BODY_COUNT + FILE_COUNT) as i32;
    assert!(!passes_settings(insert), "挿入は代役の空文書へ入ってしまう");
}

#[test]
fn a_given_key_is_saved_and_runs() {
    match save_key("", 1, false, "ctrl+alt+s") {
        SaveKey::Saved(raw, key) => {
            assert_eq!(key, "Ctrl+Alt+S");
            assert_eq!(label(&raw, 1), "Ctrl+Alt+S");
            assert_eq!(resolve(&raw, 0, "s", true, true, false), 1);
            assert_eq!(bindings(&encode_bindings(&bindings(&raw))), bindings(&raw));
            assert!(matches!(save_key(&raw, 0, false, "Ctrl+Alt+S"), SaveKey::Taken(1)));
            assert!(matches!(save_key(&raw, 1, true, ""), SaveKey::Saved(_, key) if key == "Ctrl+S"));
        }
        _ => panic!("the key can be given"),
    }
    assert!(matches!(save_key("", 1, false, "S"), SaveKey::Refused));
    assert!(matches!(save_key("", ACTION_COUNT, false, "Ctrl+Alt+S"), SaveKey::Nothing));
}

#[test]
fn a_key_is_shown_as_it_is_pressed() {
    assert!(matches!(
        capture_key("k", true, true, false),
        Capture::Show(Some(key), true) if key == "Ctrl+Alt+K"
    ));
    assert!(matches!(capture_key("k", false, false, false), Capture::Show(None, _)));
    let shift: slint::SharedString = slint::platform::Key::Shift.into();
    assert!(matches!(capture_key(&shift, false, false, true), Capture::Keep));
    assert!(modifier_only(&shift));
    let f5: slint::SharedString = slint::platform::Key::F5.into();
    assert_eq!(function_key(&f5).as_deref(), Some("F5"));
    assert!(is_function("F12") && !is_function("F13") && !is_function("F0"));
    assert_eq!(key_token(" left ").as_deref(), Some("Left"));
    assert_eq!(key_token("@"), None);
}

#[test]
fn a_key_is_heard_where_it_may_run() {
    assert_eq!(hear_key("", "o", true, false, false, true), KeyAnswer::Run(0));
    assert_eq!(hear_key("", "s", true, false, false, true), KeyAnswer::Swallowed);
    assert_eq!(hear_key("", "s", true, false, false, false), KeyAnswer::Run(1));
    assert_eq!(hear_key("", "s", false, false, false, false), KeyAnswer::Unheard);
    assert_eq!(run_command(16, true, false, false), KeyAct::FocusBelow);
    assert_eq!(run_command(16, false, false, false), KeyAct::MovePane(3));
    assert_eq!(
        run_command(43, false, true, false),
        KeyAct::TogglePreview { leave_viewer: true }
    );
    assert_eq!(run_command(BODY_COUNT, false, false, false), KeyAct::Menu(ShortcutAction::NewFile));
    assert_eq!(run_command(ACTION_COUNT, false, false, false), KeyAct::Nothing);
}

#[test]
fn the_page_lists_the_actions_by_group() {
    let mut names: Vec<String> = Vec::new();
    for id in 0..ACTION_COUNT {
        names.push(name_at(id, true).unwrap_or("Shape").to_owned());
    }
    let all = publish("", &names, "", "", 0, true);
    assert!(all.len() > ACTION_COUNT - 1);
    let found = publish("", &names, "", "Ctrl+Shift+S", 0, true);
    assert!(found.len() < all.len());
    assert_eq!(fold_group(0, 2), 4);
    assert_eq!(fold_group(4, 2), 0);
    assert_eq!(category_at(38), 6);
    assert_eq!(scope_at(38), 1);
    assert!(!group_at(0, true).0.is_empty());
    assert!(!fixed_at(0, true).1.is_empty());
}

#[test]
fn the_writer_is_told_of_a_key() {
    let taken = save_key("", 0, false, "Ctrl+S");
    assert!(matches!(taken, SaveKey::Taken(1)));
    assert_eq!(taken.words("Open", "Save", true).as_deref(), Some("Already assigned to Save"));
    assert_eq!(taken.words("開く", "保存", false).as_deref(), Some("保存に割り当て済みです"));
    let saved = save_key("", 0, false, "Ctrl+Alt+O");
    assert_eq!(saved.words("Open", "", true).as_deref(), Some("Saved the key for Open"));
    let refused = save_key("", 0, false, "K");
    assert!(matches!(refused, SaveKey::Refused));
    assert!(refused.words("", "", true).is_some());
    assert_eq!(save_key("", ACTION_COUNT, false, "Ctrl+K").words("", "", true), None);
    let good = capture_key("k", true, true, false).words(true).unwrap();
    assert_eq!(good.0, "Ctrl+Alt+K");
    assert!(good.1.starts_with("Key accepted."));
    assert!(Capture::Keep.words(true).is_none());
    assert_eq!(Capture::Show(None, false).words(false).unwrap().0, "使用不可");
    assert_eq!(search_key("o", true, false, false).as_deref(), Some("Ctrl+O"));
    assert_eq!(search_key("\u{10}", false, false, true), None);
    assert_eq!(reset_told(true), "Restored all keys to their defaults");
}

#[test]
fn the_list_is_searched_in_any_case() {
    let names: Vec<String> = (0..ACTION_COUNT)
        .map(|id| name_at(id, true).unwrap_or("").to_owned())
        .collect();
    let found = publish("", &names, "OPEN FILE", "", 0, true);
    assert!(found.iter().any(|item| !item.header && item.name == "Open File"));
}
