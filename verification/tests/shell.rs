use veloce::shell::{canonicalize_command, mend_command, parse_shell_prefix_command};
use veloce::shell::{split_command, HostPaths, SplitArg};

fn words(list: &[&str]) -> Vec<String> {
    list.iter().map(|s| s.to_string()).collect()
}

fn canonical(binary: &str, args: &[&str]) -> (String, Vec<String>) {
    canonicalize_command(binary.to_string(), words(args))
}

#[test]
fn lines_are_split_as_a_shell_does() {
    assert_eq!(split_command("a 'b c' \"d e\" f\\ g"), words(&["a", "b c", "d e", "f g"]));
    assert_eq!(split_command("a 'b c"), words(&["a", "'b", "c"]));
    assert_eq!(split_command("  "), words(&[]));
}

#[test]
fn programs_are_named_once() {
    assert_eq!(canonical("/bin/sleep", &["sleep 5"]), ("/bin/sleep".into(), words(&["5"])));
    assert_eq!(
        canonical("sleep", &["/usr/bin/sleep", "5"]),
        ("sleep".into(), words(&["5"]))
    );
    assert_eq!(
        canonical("python run.py", &["run.py", "-v"]),
        ("python".into(), words(&["run.py", "-v"]))
    );
    assert_eq!(
        canonical("python run.py", &["-v"]),
        ("python".into(), words(&["run.py", "-v"]))
    );
    assert_eq!(canonical("", &["x"]), ("".into(), words(&["x"])));
    assert_eq!(canonical("a", &["", "b c"]), ("a".into(), words(&["b c"])));
    assert_eq!(canonical("'my prog' -x", &[]), ("my prog".into(), words(&["-x"])));
}

#[test]
fn mending_takes_the_words_given() {
    let arg = SplitArg { arg: "x y".to_string(), words: words(&["run", "y"]) };
    let (binary, args) = mend_command("ignored".to_string(), &words(&["/p/run"]), &vec![arg]);
    assert_eq!(binary, "/p/run");
    assert_eq!(args, words(&["y"]));
}

#[test]
fn clean_commands_stay() {
    let (binary, args) = canonical("tool", &["a", "b"]);
    assert_eq!((binary.as_str(), args), ("tool", words(&["a", "b"])));
}

#[test]
fn prefixes_set_variables() {
    let host = HostPaths {
        path: "/bin".to_string(),
        ld_library_path: "/lib".to_string(),
        dyld_library_path: "".to_string(),
    };
    let c = parse_shell_prefix_command(
        "PATH=/opt/bin:$PATH; export PATH; LD_LIBRARY_PATH=/l:${LD_LIBRARY_PATH:-} ; mpirun -x ;",
        &words(&["app"]),
        &host,
    );
    assert_eq!(c.binary, "mpirun");
    assert_eq!(c.args, words(&["-x", "app"]));
    assert_eq!(c.env.get("PATH").as_deref(), Some("/opt/bin:/bin"));
    assert_eq!(c.env.get("LD_LIBRARY_PATH").as_deref(), Some("/l:/lib"));
    let plain = parse_shell_prefix_command("A=1", &words(&["x"]), &host);
    assert_eq!(plain.binary, "A=1");
    assert_eq!(plain.args, words(&["x"]));
    assert!(plain.env.entries().is_empty());
    let only = parse_shell_prefix_command("A=1;", &words(&["x"]), &host);
    assert_eq!(only.binary, "A=1;");
    assert_eq!(only.env.get("A").as_deref(), Some("1"));
}
