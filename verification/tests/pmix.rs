use veloce::pmix::{find_socket_in_dir, ServerFile};
use veloce::pmix::{finalize_global_server, init_global_server, GlobalServer, StartOutcome};
use veloce::pmix::{after_look, client_proc, client_registration, get_server_uri, names_socket};
use veloce::pmix::{namespace_name, nspace_registration, server_started, SocketSearch};

#[test]
fn namespaces_are_named_after_jobs() {
    assert_eq!(namespace_name(5), "pmix-job-5");
    assert_eq!(
        get_server_uri(&Some("/tmp/s".to_string()), 5).as_deref(),
        Some("pmix-job-5:unix-socket=/tmp/s")
    );
    assert_eq!(get_server_uri(&None, 5), None);
}

#[test]
fn clients_carry_a_padded_name() {
    let p = match client_proc(u64::MAX, 3) {
        Ok(p) => p,
        Err(e) => panic!("{e}"),
    };
    assert_eq!(p.rank, 3);
    assert_eq!(p.nspace.len(), 256);
    let name = "pmix-job-18446744073709551615".as_bytes();
    assert_eq!(&p.nspace[..name.len()], name);
    assert!(p.nspace[name.len()..].iter().all(|b| *b == 0));
}

#[test]
fn registrations_can_fail() {
    assert_eq!(nspace_registration(0, Some(0)), Ok(()));
    assert_eq!(
        nspace_registration(-1, None),
        Err("PMIx_server_register_nspace failed with status code -1".to_string())
    );
    assert_eq!(
        nspace_registration(0, Some(-7)),
        Err("PMIx namespace registration callback returned failure status -7".to_string())
    );
    assert_eq!(
        nspace_registration(0, None),
        Err("PMIx namespace registration callback channel disconnected".to_string())
    );
    assert_eq!(client_registration(2, 0, Some(0)), Ok(()));
    assert_eq!(
        client_registration(2, 9, None),
        Err("PMIx_server_register_client failed for rank 2 with status code 9".to_string())
    );
    assert_eq!(
        client_registration(2, 0, Some(4)),
        Err("PMIx client registration callback returned failure status 4 for rank 2".to_string())
    );
    assert!(client_registration(2, 0, None).is_err());
    assert_eq!(server_started(0), Ok(()));
    assert_eq!(
        server_started(-25),
        Err("PMIx_server_init failed with status code -25".to_string())
    );
}

#[test]
fn sockets_are_looked_for_fifty_times() {
    assert!(names_socket("pmix.sys") && names_socket("a.socket"));
    assert!(!names_socket("socket.a"));
    match after_look(Some("/p".to_string()), 0) {
        SocketSearch::Found { path } => assert_eq!(path, "/p"),
        _ => panic!("not found"),
    }
    let mut looks = 0;
    let mut count = 0;
    loop {
        count += 1;
        match after_look(None, looks) {
            SocketSearch::Wait { looks: n, wait_ms } => {
                assert_eq!(wait_ms, 100);
                looks = n;
            }
            SocketSearch::Failed { wait_ms, reason } => {
                assert_eq!(wait_ms, 100);
                assert_eq!(reason, "PMIx server socket file not found after initialization");
                break;
            }
            SocketSearch::Found { .. } => panic!("found"),
        }
    }
    assert_eq!(count, 50);
}

fn found(path: &str) -> StartOutcome {
    StartOutcome::Answered { status: 0, socket: Some(path.to_string()) }
}

#[test]
fn first_socket_is_kept() {
    let mut server = GlobalServer::new();
    assert_eq!(get_server_uri(&server.socket, 7), None);
    assert!(finalize_global_server(&mut server, None).is_ok());
    let silent = StartOutcome::Answered { status: 0, socket: None };
    assert!(init_global_server(&mut server, silent).is_err());
    assert_eq!(get_server_uri(&server.socket, 7), None);
    assert!(init_global_server(&mut server, found("/tmp/a")).is_ok());
    let uri = Some("pmix-job-7:unix-socket=/tmp/a".to_string());
    assert_eq!(get_server_uri(&server.socket, 7), uri);
    assert!(finalize_global_server(&mut server, None).is_ok());
    assert_eq!(get_server_uri(&server.socket, 7), uri);
    assert!(init_global_server(&mut server, found("/tmp/b")).is_ok());
    assert_eq!(get_server_uri(&server.socket, 7), uri);
}

#[test]
fn failed_starts_are_undone() {
    let mut server = GlobalServer::new();
    let none = StartOutcome::NoDirectory { error: "denied".to_string() };
    let e = init_global_server(&mut server, none).err().unwrap();
    assert_eq!(e.reason, "Failed to create PMIx socket directory /tmp/pmix.veloce: denied");
    assert!(!e.stop_server && !e.remove_directory);
    let refused = StartOutcome::Answered { status: -25, socket: Some("/p".to_string()) };
    let e = init_global_server(&mut server, refused).err().unwrap();
    assert_eq!(e.reason, "PMIx_server_init failed with status code -25");
    assert!(!e.stop_server && e.remove_directory);
    let silent = StartOutcome::Answered { status: 0, socket: None };
    let e = init_global_server(&mut server, silent).err().unwrap();
    assert_eq!(e.reason, "PMIx server socket file not found after initialization");
    assert!(e.stop_server && e.remove_directory);
    assert_eq!(
        finalize_global_server(&mut server, Some("busy".to_string())),
        Err("Failed to clean up PMIx socket directory /tmp/pmix.veloce: busy".to_string())
    );
}

#[test]
fn sockets_are_known_by_kind_or_name() {
    let file = |name: &str, is_socket: bool| ServerFile {
        path: format!("/d/{name}"),
        name: name.to_string(),
        is_socket,
    };
    assert_eq!(find_socket_in_dir(&vec![]), None);
    assert_eq!(find_socket_in_dir(&vec![file("lock", false)]), None);
    let found = find_socket_in_dir(&vec![file("lock", false), file("s", true), file("pmix", false)]);
    assert_eq!(found, Some("/d/s".to_string()));
    let found = find_socket_in_dir(&vec![file("a.socket", false), file("s", true)]);
    assert_eq!(found, Some("/d/a.socket".to_string()));
}
