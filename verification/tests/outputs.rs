use veloce::outputs::{check_resolved, collect_declared_output_artifacts, glob_component_matches};
use veloce::outputs::{glob_matches, match_char_class, output_pattern_matches};
use veloce::outputs::{output_type_for_path, relative_output_path, validate_output_request};
use veloce::outputs::{FoundFile, OutputError, OutputRule};

fn rule(path: &str, output_type: &str) -> OutputRule {
    OutputRule { path: path.to_string(), output_type: output_type.to_string() }
}

fn found(path: &str, size: u64) -> FoundFile {
    FoundFile { path: path.to_string(), size, updated_at: Some(7) }
}

#[test]
fn stars_stay_in_a_component() {
    for (pattern, text, yes) in [
        ("", "", true),
        ("", "a", false),
        ("*", "", true),
        ("*", "abc", true),
        ("*", "a/b", false),
        ("*.log", "run.log", true),
        ("*.log", "d/run.log", false),
        ("d/*.log", "d/run.log", true),
        ("a?c", "abc", true),
        ("a?c", "a/c", false),
        ("?", "", false),
        ("[abc]x", "bx", true),
        ("[a-c]x", "bx", true),
        ("[a-c]x", "dx", false),
        ("[a-]x", "-x", true),
        ("[]x", "x", false),
        ("[abc", "a", false),
        ("[/]", "/", false),
        ("**", "ab", true),
        ("plain", "plain", true),
        ("plain", "plaid", false),
    ] {
        assert_eq!(glob_matches(pattern.as_bytes(), text.as_bytes()), yes, "{pattern} {text}");
        assert_eq!(glob_component_matches(pattern, text), yes, "{pattern} {text}");
    }
}

#[test]
fn classes_take_one_byte() {
    let got = match_char_class("[a-c]rest".as_bytes(), "bxy".as_bytes());
    assert_eq!(got, Some(("rest".as_bytes(), "xy".as_bytes())));
    assert_eq!(match_char_class("[a-c]".as_bytes(), "".as_bytes()), None);
    assert_eq!(match_char_class("[a-c]".as_bytes(), "/".as_bytes()), None);
    assert_eq!(match_char_class("[a-c".as_bytes(), "a".as_bytes()), None);
}

#[test]
fn patterns_can_name_directories() {
    assert!(output_pattern_matches("./out/", "out/a/b.txt"));
    assert!(output_pattern_matches("res*/", "./results/x"));
    assert!(!output_pattern_matches("out/", "other/out/x"));
    assert!(output_pattern_matches("././a", "a"));
    assert!(output_pattern_matches("*.dat", "./x.dat"));
}

#[test]
fn the_first_rule_decides() {
    let rules = vec![rule("*.log", "log"), rule("*", "any")];
    assert_eq!(output_type_for_path(&rules, "a.log").as_deref(), Some("log"));
    assert_eq!(output_type_for_path(&rules, "a.txt").as_deref(), Some("any"));
    assert_eq!(output_type_for_path(&rules, "d/a.txt"), None);
}

#[test]
fn paths_are_relative_to_the_root() {
    assert_eq!(relative_output_path("/w", "/w/a/b").as_deref(), Some("a/b"));
    assert_eq!(relative_output_path("/w/", "/w/./a").as_deref(), Some("a"));
    assert_eq!(relative_output_path("/w", "/w"), None);
    assert_eq!(relative_output_path("/w", "/x/a"), None);
    assert_eq!(relative_output_path("/w", "/wide/a"), None);
}

#[test]
fn requests_are_held_to_the_manifest() {
    let rules = vec![rule("out/*", "data")];
    match validate_output_request("/w", &rules, "./out//a.txt") {
        Ok(r) => {
            assert_eq!(r.candidate, "/w/out/a.txt");
            assert_eq!(r.normalized, "out/a.txt");
            assert_eq!(r.output_type, "data");
        }
        Err(e) => panic!("{e:?}"),
    }
    for (path, error, message) in [
        (
            "/out/a",
            OutputError::Absolute,
            "Output path must be relative to the job working directory",
        ),
        (
            "out/../a",
            OutputError::NotBelow,
            "Output path may not contain parent, prefix, or root components",
        ),
        ("./", OutputError::Empty, "Output path is empty"),
        ("", OutputError::Empty, "Output path is empty"),
        (
            "other",
            OutputError::Undeclared,
            "Output path is not declared in the container manifest",
        ),
    ] {
        match validate_output_request("/w", &rules, path) {
            Ok(_) => panic!("{path} accepted"),
            Err(e) => {
                assert_eq!(e, error, "{path}");
                assert_eq!(e.message(), message);
            }
        }
    }
    assert_eq!(
        OutputError::NoManifest.message(),
        "Job has no container manifest with declared outputs"
    );
}

#[test]
fn links_may_not_lead_outside() {
    assert_eq!(check_resolved("/w", "/w/out/a"), Ok(()));
    assert_eq!(check_resolved("/w", "/etc/passwd"), Err(OutputError::Outside));
    assert_eq!(check_resolved("/w", "/wide"), Err(OutputError::Outside));
    assert_eq!(
        OutputError::Outside.message(),
        "Output path resolves outside the job working directory"
    );
}

#[test]
fn artifacts_are_listed_in_order() {
    let rules = vec![rule("*.dat", "data"), rule("logs/", "log")];
    let files = vec![
        found("/w/z.dat", 3),
        found("/w/logs/b", 2),
        found("/w/skip.txt", 9),
        found("/w/a.dat", 1),
        found("/w/a.dat", 5),
    ];
    let list = collect_declared_output_artifacts("/w", &rules, &files);
    let rows: Vec<(&str, &str, Option<u64>)> =
        list.iter().map(|a| (a.path.as_str(), a.output_type.as_str(), a.size)).collect();
    assert_eq!(
        rows,
        vec![("a.dat", "data", Some(1)), ("logs/b", "log", Some(2)), ("z.dat", "data", Some(3))]
    );
    assert!(list.iter().all(|a| a.file_id.is_none() && a.updated_at == Some(7)));
}
