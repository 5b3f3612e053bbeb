use app_launcher::{compare_names, AppInfo, Launcher, NameOrder};

fn app(name: &str, command: &str) -> AppInfo {
    AppInfo { name: Some(name.to_string()), visible: true, exec_command: Some(command.to_string()) }
}

fn hidden(name: &str, command: &str) -> AppInfo {
    AppInfo { name: Some(name.to_string()), visible: false, exec_command: Some(command.to_string()) }
}

fn nameless(command: &str) -> AppInfo {
    AppInfo { name: None, visible: true, exec_command: Some(command.to_string()) }
}

fn summary(apps: &[AppInfo]) -> Vec<(Option<String>, bool, Option<String>)> {
    apps.iter().map(|a| (a.name.clone(), a.visible, a.exec_command.clone())).collect()
}

#[test]
fn visible_applications_keeps_the_visible_in_order() {
    let launcher = Launcher::new();
    let apps = vec![
        app("Zed", "zed"),
        hidden("Helper", "helper"),
        nameless("anonymous"),
        app("Alpha", "alpha"),
        hidden("Daemon", "daemon"),
    ];
    let expected = vec![app("Zed", "zed"), nameless("anonymous"), app("Alpha", "alpha")];
    assert_eq!(summary(&launcher.visible_applications(apps)), summary(&expected));
}

#[test]
fn visible_applications_of_none_is_none() {
    let launcher = Launcher::new();
    assert!(launcher.visible_applications(Vec::new()).is_empty());
    assert!(launcher.visible_applications(vec![hidden("A", "a")]).is_empty());
}

#[test]
fn candidates_are_the_named_visible_applications() {
    let launcher = Launcher::new();
    let list = launcher.desktop_applications(vec![
        app("Terminal", "xterm"),
        hidden("Settings Daemon", "settingsd"),
        nameless("mystery"),
        app("Editor", "edit %F"),
    ]);
    assert_eq!(list.display_names(), vec!["Editor".to_string(), "Terminal".to_string()]);
    assert!(list.get("Settings Daemon").is_none());
    assert!(list.get("mystery").is_none());
    assert!(list.get("").is_none());
    assert_eq!(list.get("Terminal").unwrap().exec_command.as_deref(), Some("xterm"));
    assert_eq!(list.get("Editor").unwrap().exec_command.as_deref(), Some("edit %F"));
}

#[test]
fn shared_name_gives_one_entry_and_the_last_wins() {
    let launcher = Launcher::new();
    let list = launcher.desktop_applications(vec![
        app("Browser", "firefox"),
        app("Browser", "chromium"),
    ]);
    assert_eq!(list.display_names(), vec!["Browser".to_string()]);
    assert_eq!(list.get("Browser").unwrap().exec_command.as_deref(), Some("chromium"));
}

#[test]
fn hidden_duplicate_does_not_replace_a_candidate() {
    let launcher = Launcher::new();
    let list = launcher.desktop_applications(vec![
        app("Browser", "firefox"),
        app("Mail", "mutt"),
        app("Browser", "chromium"),
        hidden("Browser", "lynx"),
    ]);
    assert_eq!(list.display_names(), vec!["Browser".to_string(), "Mail".to_string()]);
    assert_eq!(list.get("Browser").unwrap().exec_command.as_deref(), Some("chromium"));
}

#[test]
fn no_applications_give_an_empty_list() {
    let launcher = Launcher::new();
    let list = launcher.desktop_applications(Vec::new());
    assert!(list.display_names().is_empty());
    assert!(list.get("Anything").is_none());
    assert_eq!(launcher.desktop_applications_string(&list), "");
}

#[test]
fn names_are_listed_in_byte_order() {
    let launcher = Launcher::new();
    let names = [
        "b", "a", "B", "aa", "é", "ab", "Z", "a b", "", "zebra", "Ab", "10", "9", "éa", "e",
        "日本語", "𝄞", "~", "a\u{0}",
    ];
    let list = launcher.desktop_applications(names.iter().map(|n| app(n, "run")).collect());
    let mut expected: Vec<String> = names.iter().map(|n| n.to_string()).collect();
    expected.sort();
    assert_eq!(list.display_names(), expected);
    for name in names {
        assert_eq!(list.get(name).unwrap().name.as_deref(), Some(name));
    }
}

#[test]
fn insertion_order_does_not_change_the_listing() {
    let launcher = Launcher::new();
    let forward = launcher.desktop_applications(vec![app("A", "1"), app("B", "2"), app("C", "3")]);
    let backward = launcher.desktop_applications(vec![app("C", "3"), app("B", "2"), app("A", "1")]);
    assert_eq!(forward.display_names(), backward.display_names());
    assert_eq!(forward.display_names(), vec!["A".to_string(), "B".to_string(), "C".to_string()]);
}

#[test]
fn names_compare_as_strings_do() {
    let names = ["", "a", "A", "aa", "ab", "b", "é", "e", "z", "日本", "日本語", "𝄞", "\u{7f}", "\u{80}"];
    for a in names {
        for b in names {
            let expected = match a.cmp(b) {
                std::cmp::Ordering::Less => NameOrder::Before,
                std::cmp::Ordering::Equal => NameOrder::Same,
                std::cmp::Ordering::Greater => NameOrder::After,
            };
            assert_eq!(compare_names(a, b), expected, "{a:?} and {b:?}");
        }
    }
}

#[test]
fn names_are_joined_by_line_feeds() {
    let launcher = Launcher::new();
    let list = launcher.desktop_applications(vec![
        app("Terminal", "xterm"),
        app("Editor", "edit"),
        app("Files", "files"),
    ]);
    assert_eq!(launcher.desktop_applications_string(&list), "Editor\nFiles\nTerminal");
}

#[test]
fn single_name_is_offered_without_line_feed() {
    let launcher = Launcher::new();
    let list = launcher.desktop_applications(vec![app("Terminal", "xterm")]);
    assert_eq!(launcher.desktop_applications_string(&list), "Terminal");
}

#[test]
fn command_of_an_application_is_its_exec_line() {
    let launcher = Launcher::new();
    assert_eq!(launcher.get_command_from_appinfo(&app("Editor", "edit %F")), "edit %F");
}

#[test]
fn application_without_command_has_the_empty_command() {
    let launcher = Launcher::new();
    let bare = AppInfo { name: Some("Bare".to_string()), visible: true, exec_command: None };
    assert_eq!(launcher.get_command_from_appinfo(&bare), "");
}
