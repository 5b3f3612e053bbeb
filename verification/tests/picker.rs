use app_launcher::{is_whitespace, Launcher};

fn strings(words: &[&str]) -> Vec<String> {
    words.iter().map(|w| w.to_string()).collect()
}

#[test]
fn empty_output_is_no_selection() {
    let launcher = Launcher::new();
    assert_eq!(launcher.receive_choice(""), None);
}

#[test]
fn bare_newline_is_no_selection() {
    let launcher = Launcher::new();
    assert_eq!(launcher.receive_choice("\n"), None);
}

#[test]
fn white_space_alone_is_no_selection() {
    let launcher = Launcher::new();
    assert_eq!(launcher.receive_choice(" \t\r\n\u{a0}\u{3000}\n"), None);
}

#[test]
fn selected_line_is_returned_without_its_newline() {
    let launcher = Launcher::new();
    assert_eq!(launcher.receive_choice("Firefox\n"), Some("Firefox".to_string()));
}

#[test]
fn selection_without_newline_is_returned_whole() {
    let launcher = Launcher::new();
    assert_eq!(launcher.receive_choice("Firefox"), Some("Firefox".to_string()));
}

#[test]
fn only_the_end_of_the_selection_is_trimmed() {
    let launcher = Launcher::new();
    assert_eq!(
        launcher.receive_choice("  Text Editor \t\r\n"),
        Some("  Text Editor".to_string())
    );
    assert_eq!(launcher.receive_choice("\nFiles\n\n"), Some("\nFiles".to_string()));
}

#[test]
fn selection_may_hold_any_character() {
    let launcher = Launcher::new();
    assert_eq!(
        launcher.receive_choice("Überschall 𝄞 éditeur\u{2028}\u{205f}"),
        Some("Überschall 𝄞 éditeur".to_string())
    );
    assert_eq!(launcher.receive_choice("a\u{200b}"), Some("a\u{200b}".to_string()));
}

#[test]
fn white_space_is_what_the_standard_library_calls_so() {
    for code in 0..=0x10ffff_u32 {
        if let Some(c) = char::from_u32(code) {
            assert_eq!(is_whitespace(c), c.is_whitespace(), "U+{code:04X}");
        }
    }
}

#[test]
fn receive_choice_trims_as_the_standard_library_does() {
    let launcher = Launcher::new();
    let outputs = [
        "", " ", "x", "x ", " x", " x ", "a b\n", "a\tb\t", "\u{85}", "x\u{85}\u{1680}",
        "x\u{2000}\u{200a}\u{2029}\u{202f}", "é\n", "\n\n\n", "name\r\n",
    ];
    for output in outputs {
        let trimmed = output.trim_end();
        let expected = if trimmed.is_empty() { None } else { Some(trimmed.to_string()) };
        assert_eq!(launcher.receive_choice(output), expected, "{output:?}");
    }
}

#[test]
fn request_splits_the_picker_command() {
    let launcher = Launcher::new();
    let receiver = strings(&["rofi", "-dmenu", "-i", "-p", "> "]);
    let request = launcher
        .send_application_names("Editor\nTerminal".to_string(), receiver)
        .unwrap();
    assert_eq!(request.program, "rofi");
    assert_eq!(request.args, strings(&["-dmenu", "-i", "-p", "> "]));
    assert_eq!(request.input, "Editor\nTerminal");
}

#[test]
fn request_for_a_lone_program_has_no_arguments() {
    let launcher = Launcher::new();
    let request = launcher.send_application_names(String::new(), strings(&["dmenu"])).unwrap();
    assert_eq!(request.program, "dmenu");
    assert!(request.args.is_empty());
    assert_eq!(request.input, "");
}

#[test]
fn empty_picker_command_gives_no_request() {
    let launcher = Launcher::new();
    assert!(launcher.send_application_names("Editor".to_string(), Vec::new()).is_none());
}
