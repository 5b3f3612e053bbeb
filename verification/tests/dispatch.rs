use app_launcher::{AppInfo, Dispatch, Launcher, Route};

const PREFIX: &str = "/run/appimg/run-in-image";

fn app(name: &str, command: &str) -> AppInfo {
    AppInfo { name: Some(name.to_string()), visible: true, exec_command: Some(command.to_string()) }
}

/// Stands in for the two ways of running a command, and records which was
/// taken with what.
struct Recorder {
    executor: Vec<String>,
    pty_wrapper: Vec<String>,
}

impl Recorder {
    fn new() -> Recorder {
        Recorder { executor: Vec::new(), pty_wrapper: Vec::new() }
    }

    fn carry_out(&mut self, next: Dispatch) {
        match next {
            Dispatch::Run { route: Route::Direct, command } => self.executor.push(command),
            Dispatch::Run { route: Route::Pty, command } => self.pty_wrapper.push(command),
            Dispatch::NoSelection | Dispatch::NoApplication { .. } => {}
        }
    }
}

#[test]
fn command_with_the_prefix_goes_to_the_pty() {
    let launcher = Launcher::new();
    assert_eq!(launcher.route("/run/appimg/run-in-image edit", PREFIX), Route::Pty);
    assert_eq!(launcher.route("/run/appimg/run-in-image", PREFIX), Route::Pty);
    assert_eq!(launcher.route("/run/appimg/run-in-imagery", PREFIX), Route::Pty);
}

#[test]
fn command_without_the_prefix_runs_directly() {
    let launcher = Launcher::new();
    assert_eq!(launcher.route("xterm", PREFIX), Route::Direct);
    assert_eq!(launcher.route("", PREFIX), Route::Direct);
    assert_eq!(launcher.route("/run/appimg/run-in-imag", PREFIX), Route::Direct);
    assert_eq!(launcher.route(" /run/appimg/run-in-image edit", PREFIX), Route::Direct);
    assert_eq!(launcher.route("env /run/appimg/run-in-image edit", PREFIX), Route::Direct);
    assert_eq!(launcher.route("/run/appimg/Run-in-image edit", PREFIX), Route::Direct);
}

#[test]
fn route_follows_whatever_prefix_is_configured() {
    let launcher = Launcher::new();
    assert_eq!(launcher.route("flatpak run org.gimp.GIMP", "flatpak run"), Route::Pty);
    assert_eq!(launcher.route("/run/appimg/run-in-image edit", "flatpak run"), Route::Direct);
    assert_eq!(launcher.route("anything", ""), Route::Pty);
    assert_eq!(launcher.route("", ""), Route::Pty);
    assert_eq!(launcher.route("éditeur --vite", "édit"), Route::Pty);
    assert_eq!(launcher.route("editeur --vite", "édit"), Route::Direct);
}

#[test]
fn every_command_takes_exactly_one_route() {
    let launcher = Launcher::new();
    let commands = [
        "xterm",
        "/run/appimg/run-in-image edit",
        "/run/appimg/run-in-image",
        "/run/appimg",
        "",
        "firefox %u",
    ];
    for command in commands {
        let mut recorder = Recorder::new();
        let route = launcher.route(command, PREFIX);
        recorder.carry_out(Dispatch::Run { route, command: command.to_string() });
        if command.starts_with(PREFIX) {
            assert_eq!(recorder.pty_wrapper, vec![command.to_string()]);
            assert!(recorder.executor.is_empty());
        } else {
            assert_eq!(recorder.executor, vec![command.to_string()]);
            assert!(recorder.pty_wrapper.is_empty());
        }
    }
}

#[test]
fn selected_image_application_runs_in_the_pty() {
    let launcher = Launcher::new();
    let list = launcher.desktop_applications(vec![
        app("Terminal", "xterm"),
        app("Editor", "/run/appimg/run-in-image edit"),
    ]);
    let offered = launcher.desktop_applications_string(&list);
    assert_eq!(offered, "Editor\nTerminal");
    let choice = launcher.receive_choice("Editor\n");
    let mut recorder = Recorder::new();
    recorder.carry_out(launcher.dispatch(&list, choice, PREFIX));
    assert_eq!(recorder.pty_wrapper, vec!["/run/appimg/run-in-image edit".to_string()]);
    assert!(recorder.executor.is_empty());
}

#[test]
fn selected_plain_application_runs_directly() {
    let launcher = Launcher::new();
    let list = launcher.desktop_applications(vec![
        app("Terminal", "xterm"),
        app("Editor", "/run/appimg/run-in-image edit"),
    ]);
    let choice = launcher.receive_choice("Terminal\n");
    let mut recorder = Recorder::new();
    recorder.carry_out(launcher.dispatch(&list, choice, PREFIX));
    assert_eq!(recorder.executor, vec!["xterm".to_string()]);
    assert!(recorder.pty_wrapper.is_empty());
}

#[test]
fn no_selection_runs_nothing() {
    let launcher = Launcher::new();
    let list = launcher.desktop_applications(vec![app("Terminal", "xterm")]);
    let next = launcher.dispatch(&list, launcher.receive_choice("\n"), PREFIX);
    assert!(matches!(next, Dispatch::NoSelection));
    let mut recorder = Recorder::new();
    recorder.carry_out(next);
    assert!(recorder.executor.is_empty() && recorder.pty_wrapper.is_empty());
}

#[test]
fn unknown_selection_runs_nothing_and_is_named() {
    let launcher = Launcher::new();
    let list = launcher.desktop_applications(vec![app("Terminal", "xterm")]);
    match launcher.dispatch(&list, Some("terminal".to_string()), PREFIX) {
        Dispatch::NoApplication { choice } => assert_eq!(choice, "terminal"),
        other => panic!("terminal is no candidate, yet {other:?}"),
    }
}

#[test]
fn selection_of_a_hidden_application_runs_nothing() {
    let launcher = Launcher::new();
    let list = launcher.desktop_applications(vec![
        app("Terminal", "xterm"),
        AppInfo { name: Some("Daemon".to_string()), visible: false, exec_command: Some("d".to_string()) },
    ]);
    let next = launcher.dispatch(&list, Some("Daemon".to_string()), PREFIX);
    assert!(matches!(next, Dispatch::NoApplication { .. }));
}

#[test]
fn selected_application_without_command_runs_the_empty_command_directly() {
    let launcher = Launcher::new();
    let list = launcher.desktop_applications(vec![AppInfo {
        name: Some("Bare".to_string()),
        visible: true,
        exec_command: None,
    }]);
    match launcher.dispatch(&list, Some("Bare".to_string()), PREFIX) {
        Dispatch::Run { route, command } => {
            assert_eq!(route, Route::Direct);
            assert_eq!(command, "");
        }
        other => panic!("Bare is a candidate, yet {other:?}"),
    }
}
