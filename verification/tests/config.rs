use veloce::config::{after_connection, apply_overrides, controller_list, file_server};
use veloce::config::{get_worker_id, host_user_commands, next_controller, shuffle_controllers};
use veloce::config::{split_names, uses_default_secret, worker_env_policy, worker_id_from};
use veloce::config::{AfterConnection, Config, Overrides};

fn some(s: &str) -> Option<String> {
    Some(s.to_string())
}

fn nothing() -> Overrides {
    Overrides {
        controller: None,
        controllers: None,
        cluster_secret: None,
        fileserver_url: None,
        fileserver_api_key: None,
        idle_timeout_seconds: None,
        worker_token: None,
    }
}

#[test]
fn policy_follows_the_environment() {
    let p = worker_env_policy(&None, &None, &None);
    assert!(!p.allowlist_enabled && !p.require_impersonation);
    assert_eq!(p.defaults, "PATH,LANG,LC_ALL,TMPDIR");
    let p = worker_env_policy(&some("1"), &some("HOME"), &some("true"));
    assert!(p.allowlist_enabled && p.require_impersonation);
    assert_eq!(p.defaults, "HOME");
    assert!(!worker_env_policy(&some("TRUE"), &None, &None).allowlist_enabled);
}

#[test]
fn defaults_ask_for_little() {
    let c = Config::default();
    assert_eq!(c.idle_timeout_seconds, Some(600));
    assert!(c.controller.is_none() && c.controllers.is_empty() && !c.run_as_worker_user);
}

#[test]
fn arguments_go_over_the_file() {
    let mut file = Config::default();
    file.controller = some("a");
    file.cluster_secret = some("s");
    file.controllers = vec!["x".to_string()];
    let kept = apply_overrides(file, &nothing());
    assert_eq!(kept.controller.as_deref(), Some("a"));
    assert_eq!(kept.controllers, vec!["x"]);
    let mut o = nothing();
    o.controller = some("b");
    o.controllers = some("p, q ,,r");
    o.idle_timeout_seconds = Some(5);
    o.worker_token = some("t");
    let c = apply_overrides(kept, &o);
    assert_eq!(c.controller.as_deref(), Some("b"));
    assert_eq!(c.controllers, vec!["p", "q", "", "r"]);
    assert_eq!(c.idle_timeout_seconds, Some(5));
    assert_eq!(c.cluster_secret.as_deref(), Some("s"));
    assert_eq!(c.worker_token.as_deref(), Some("t"));
    assert_eq!(split_names(" a "), vec!["a"]);
}

#[test]
fn there_is_always_a_controller() {
    assert_eq!(controller_list(&vec![], &None), vec!["127.0.0.1:9000"]);
    let two = vec!["a".to_string(), "b".to_string()];
    assert_eq!(controller_list(&two, &some("b")), vec!["a", "b"]);
    assert_eq!(controller_list(&two, &some("c")), vec!["c", "a", "b"]);
    assert_eq!(controller_list(&vec![], &some("c")), vec!["c"]);
}

fn expected_order(mut list: Vec<String>, worker_id: &str) -> Vec<String> {
    let mut rng = 0u64;
    for b in worker_id.bytes() {
        rng = rng.wrapping_mul(31).wrapping_add(b as u64);
    }
    for i in (1..list.len()).rev() {
        rng = rng.wrapping_mul(6364136223846793005).wrapping_add(1442695040888963407);
        let j = ((rng >> 32) as u32 as usize) % (i + 1);
        list.swap(i, j);
    }
    list
}

#[test]
fn workers_try_controllers_in_their_own_order() {
    let list: Vec<String> = ["a", "b", "c", "d", "e"].iter().map(|s| s.to_string()).collect();
    for id in ["", "w1", "w2", "0b5c1f30-7a44-4f0e-9a6e-9f0f3f2f7c11", "é"] {
        let order = shuffle_controllers(list.clone(), id);
        assert_eq!(order, expected_order(list.clone(), id));
        let mut sorted = order;
        sorted.sort();
        assert_eq!(sorted, list);
    }
    assert_eq!(shuffle_controllers(vec!["x".to_string()], "w"), vec!["x"]);
}

#[test]
fn the_next_controller_is_tried_after_a_while() {
    assert_eq!(next_controller(0, 3), 1);
    assert_eq!(next_controller(2, 3), 0);
    assert!(matches!(after_connection(2, 3, true), AfterConnection::Exit));
    match after_connection(2, 3, false) {
        AfterConnection::Try { index, wait_seconds } => assert_eq!((index, wait_seconds), (0, 5)),
        AfterConnection::Exit => panic!("left"),
    }
}

#[test]
fn names_are_kept_or_made() {
    let kept = get_worker_id(&some(" w-1\n"));
    assert_eq!((kept.id.as_str(), kept.is_new), ("w-1", false));
    let made = get_worker_id(&None);
    assert!(made.is_new);
    assert_eq!(made.id.len(), 36);
    assert_eq!(made.id.chars().nth(14), Some('4'));
    assert_eq!(made.id.matches('-').count(), 4);
    assert_ne!(get_worker_id(&None).id, made.id);
    assert_eq!(worker_id_from(&None, "f".to_string()).id, "f");
}

#[test]
fn files_are_served_with_a_secret_only() {
    let mut c = Config::default();
    assert!(file_server(&c).is_none());
    c.cluster_secret = some("k");
    let f = file_server(&c).unwrap();
    assert_eq!((f.url.as_str(), f.api_key.as_str()), ("https://veloce-fileserver-ha:9001", "k"));
    c.fileserver_url = some("u");
    c.fileserver_api_key = some("a");
    let f = file_server(&c).unwrap();
    assert_eq!((f.url.as_str(), f.api_key.as_str()), ("u", "a"));
    assert!(uses_default_secret("veloce_default_secret_change_me"));
    assert!(!uses_default_secret("other"));
}

#[test]
fn users_of_the_host_are_created() {
    let (group, user) = host_user_commands(&some("ann"), &some("1000"), &some("100")).unwrap();
    assert_eq!(group, vec!["-g", "100", "ann"]);
    assert_eq!(user, vec!["-u", "1000", "-g", "100", "-m", "-s", "/bin/bash", "ann"]);
    assert!(host_user_commands(&some(""), &some("1"), &some("1")).is_none());
    assert!(host_user_commands(&None, &some("1"), &some("1")).is_none());
}
