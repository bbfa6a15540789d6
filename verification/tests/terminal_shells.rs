//! The shells that a terminal can be opened with.
use rfn_edit::terminal_shells::{
    action, command_parts, launch, launch_by, publish, ProfileFields, ProfileStep, TerminalShell,
};

fn shell(name: &str, command: &str, directory: &str) -> TerminalShell {
    TerminalShell {
        name: name.into(),
        command: command.into(),
        directory: directory.into(),
    }
}

fn fields(name: &str, executable: &str, arguments: &str, directory: &str) -> ProfileFields {
    ProfileFields {
        name: name.into(),
        executable: executable.into(),
        arguments: arguments.into(),
        directory: directory.into(),
    }
}

#[test]
fn quoted_program_and_japanese_directory_roundtrip() {
    let shell = TerminalShell {
        name: "My Shell".into(),
        command: "\"C:\\Program Files\\PowerShell\\pwsh.exe\" -NoLogo".into(),
        directory: "D:\\原稿 作業".into(),
    };
    assert_eq!(shell.program(), "C:\\Program Files\\PowerShell\\pwsh.exe");
    assert_eq!(TerminalShell::read(&shell.written()), Some(shell.clone()));
    assert_eq!(
        launch(&shell),
        (shell.command.clone(), Some(shell.directory.clone()))
    );
    let linux = TerminalShell {
        name: "WSL".into(),
        command: "wsl.exe -d Ubuntu".into(),
        directory: "/home/user/原稿 作業".into(),
    };
    assert_eq!(
        launch(&linux),
        (
            "\"wsl.exe\" --cd \"/home/user/原稿 作業\" -d Ubuntu".into(),
            None
        )
    );
}

#[test]
fn a_command_comes_apart() {
    let both = |a: &str, b: &str| (a.to_owned(), b.to_owned());
    assert_eq!(command_parts("  cmd.exe  /Q /K "), both("cmd.exe", "/Q /K"));
    assert_eq!(command_parts("\"a b\" c"), both("a b", "c"));
    assert_eq!(command_parts("\"a b"), both("\"a", "b"));
    assert_eq!(command_parts(""), both("", ""));
}

#[test]
fn only_wsl_is_told_of_its_own_folders() {
    let linux = shell("WSL", "wsl.exe", "~");
    assert_eq!(launch(&linux), ("\"wsl.exe\" --cd \"~\" ".to_owned(), None));
    assert_eq!(
        launch_by(&linux, &Some("cmd".to_owned())),
        ("wsl.exe".to_owned(), Some("~".to_owned()))
    );
    assert_eq!(launch_by(&linux, &Some("WSL".to_owned())).1, None);
    let quoted = shell("WSL", "WSL", "/a\"b");
    assert_eq!(launch(&quoted).0, "\"WSL\" --cd \"/a\\\"b\" ");
    assert_eq!(launch(&shell("x", "cmd.exe", "  ")), ("cmd.exe".to_owned(), None));
}

#[test]
fn a_profile_is_kept_and_shown_again() {
    let mut shells = vec![shell("PowerShell", "powershell.exe -NoLogo", "")];
    let given = fields(" pwsh ", "C:\\a b\\pwsh.exe", "-NoLogo", "D:\\x");
    let step = action(&mut shells, 0, "PowerShell", 1, 0, &given, &None, true);
    match step {
        ProfileStep::Keep { index, default_name } => {
            assert_eq!(index, 0);
            assert_eq!(default_name, "pwsh");
        }
        other => panic!("{other:?}"),
    }
    assert_eq!(shells[0].command, "\"C:\\a b\\pwsh.exe\" -NoLogo");
    let page = publish(&shells, "pwsh", 5, true);
    assert_eq!(page.names, vec!["pwsh (Default)".to_owned()]);
    assert!(page.is_default);
    assert_eq!(page.fields.unwrap().executable, "C:\\a b\\pwsh.exe");
}

#[test]
fn a_profile_that_cannot_be_kept_is_refused() {
    let mut shells = vec![shell("a", "a.exe", ""), shell("b", "b.exe", "")];
    for bad in [
        fields("", "x", "", ""),
        fields("n", " ", "", ""),
        fields("n|m", "x", "", ""),
        fields("n", "x\"y", "", ""),
        fields("n", "x", "a\tb", ""),
        fields("n", "x", "", "a\"b"),
        fields("b", "x", "", ""),
    ] {
        let step = action(&mut shells, 0, "a", 1, 0, &bad, &None, true);
        assert!(matches!(step, ProfileStep::Tell(_)));
    }
    assert_eq!(shells[0].name, "a");
}

#[test]
fn profiles_are_added_moved_and_taken_away() {
    let none = fields("", "", "", "");
    let mut shells = vec![shell("a", "a.exe", "")];
    action(&mut shells, 0, "a", 2, 0, &none, &None, true);
    assert_eq!(shells[1].name, "Shell 2");
    action(&mut shells, 0, "a", 3, 0, &none, &None, true);
    assert_eq!(shells[2].name, "a (3)");
    action(&mut shells, 2, "a", 4, 0, &none, &None, true);
    assert_eq!(shells[1].name, "a (3)");
    action(&mut shells, 0, "a", 5, 0, &none, &None, true);
    assert_eq!(shells[0].name, "a (3)");
    assert!(matches!(
        action(&mut shells, 0, "a", 4, 0, &none, &None, true),
        ProfileStep::Nothing
    ));
    assert!(matches!(
        action(&mut shells, 0, "a", 7, 0, &none, &None, true),
        ProfileStep::Keep { default_name, .. } if default_name == "a (3)"
    ));
    action(&mut shells, 9, "a", 6, 0, &none, &None, true);
    assert_eq!(shells.len(), 2);
    assert!(matches!(
        action(&mut shells, 0, "a", 8, 0, &none, &Some("D:\\x".to_owned()), true),
        ProfileStep::Open(folder) if folder == "D:\\x"
    ));
    assert!(matches!(
        action(&mut shells, 0, "a", 8, 0, &none, &None, true),
        ProfileStep::Tell("Choose a saved document")
    ));
    assert!(matches!(
        action(&mut shells, 0, "a", 0, -4, &none, &None, true),
        ProfileStep::Show(0)
    ));
}
