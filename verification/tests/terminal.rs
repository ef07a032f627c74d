use veloce::terminal::{attach_target, find_attach_pid, terminal_command, ProcRow};
use veloce::terminal::{is_namespace_helper, is_preferred_payload};

#[test]
fn test_helper_detection() {
    assert!(is_namespace_helper("Xtigervnc"));
    assert!(is_namespace_helper("dbus-daemon"));
    assert!(!is_namespace_helper("xfce4-terminal"));
    assert!(is_preferred_payload("bash"));
    assert!(is_preferred_payload("xfce4-session"));
}

#[test]
fn names_are_taken_without_their_case() {
    assert!(is_namespace_helper("XORG"));
    assert!(is_namespace_helper("X"));
    assert!(!is_namespace_helper("xx"));
    assert!(is_namespace_helper("PipeWire-pulse"));
    assert!(!is_namespace_helper("my-pipewire"));
    assert!(is_namespace_helper("ssh-agent"));
    assert!(is_preferred_payload("R"));
    assert!(!is_preferred_payload("Rx"));
    assert!(is_preferred_payload("SH"));
    assert!(is_preferred_payload("Python3"));
    assert!(!is_preferred_payload("top"));
}

fn row(pid: u32, parent: Option<u32>, name: &str) -> ProcRow {
    ProcRow { pid, parent, name: name.to_string() }
}

#[test]
fn attaches_to_the_payload() {
    let rows = vec![
        row(10, Some(1), "apptainer"),
        row(11, Some(10), "Xtigervnc"),
        row(12, Some(10), "sleep"),
        row(13, Some(10), "bash"),
        row(14, Some(13), "dbus-daemon"),
    ];
    assert_eq!(find_attach_pid(&rows, 10), 13);
    assert_eq!(attach_target(&rows, 10), 13);
    assert_eq!(find_attach_pid(&rows, 1), 13);
    assert_eq!(find_attach_pid(&rows, 99), 99);
}

#[test]
fn stays_above_helpers() {
    let rows = vec![row(11, Some(10), "Xvnc"), row(12, Some(10), "dbus-launch")];
    assert_eq!(find_attach_pid(&rows, 10), 10);
}

#[test]
fn goes_ten_levels_down() {
    let mut rows = Vec::new();
    for pid in 2..40u32 {
        rows.push(row(pid, Some(pid - 1), "bash"));
    }
    assert_eq!(find_attach_pid(&rows, 1), 11);
}

#[test]
fn lowest_number_wins_among_equals() {
    let rows = vec![row(30, Some(1), "zsh"), row(20, Some(1), "zsh"), row(5, Some(1), "sleep")];
    assert_eq!(find_attach_pid(&rows, 1), 20);
}

#[test]
fn shells_enter_the_namespaces() {
    let plain = terminal_command(None);
    assert_eq!(plain.program, "/bin/bash");
    assert!(plain.args.is_empty());
    let inside = terminal_command(Some(42));
    assert_eq!(inside.program, "/usr/bin/nsenter");
    assert_eq!(
        inside.args,
        vec!["--target", "42", "--mount", "--uts", "--ipc", "--net", "--pid", "/bin/bash"]
    );
}
