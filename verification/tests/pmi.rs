use veloce::pmi::{get_reply, pmi_requests, process_pmi_request, PmiAction};

fn reply(req: &str) -> String {
    match process_pmi_request(req) {
        PmiAction::Reply { text } => text,
        _ => panic!("no plain reply to {req}"),
    }
}

#[test]
fn plain_requests_are_answered() {
    for (req, text) in [
        ("cmd=init", "cmd=response_to_init pmi_version=1 pmi_subversion=1 rc=0\n"),
        ("cmd=init-v1-req;", "cmd=init-v1-req-response;rc=0;pmi_version=2;pmi_subversion=0;\n"),
        (
            "cmd=get_maxes",
            "cmd=get_maxes_response kvsname_max=255 keylen_max=255 vallen_max=1024 rc=0\n",
        ),
        (
            "cmd=get-maxes;",
            "cmd=get_maxes_response kvsname_max=255 keylen_max=255 vallen_max=1024 rc=0\n",
        ),
        ("cmd=get_my_kvsname", "cmd=get_my_kvsname_response kvsname=veloce_step rc=0\n"),
        ("cmd=appnum-get;", "cmd=get_appnum_response appnum=0 rc=0\n"),
        ("cmd=get_universe_size", "cmd=get_universe_size_response size=1 rc=0\n"),
        ("cmd=commit", "cmd=commit_response rc=0\n"),
        ("cmd=finalize", "cmd=finalize_response rc=0\n"),
        ("cmd=job-disconnect;", "cmd=job-disconnect-response;rc=0;\n"),
        ("cmd=info", "cmd=info-response;rc=0;\n"),
        ("cmd=what", "cmd=error rc=1 msg=unknown_cmd\n"),
        ("rank=1", "cmd=error rc=1 msg=no_cmd\n"),
        ("", "cmd=error rc=1 msg=no_cmd\n"),
        ("cmd=init cmd=info", "cmd=info-response;rc=0;\n"),
        (" cmd = info ;", "cmd=info-response;rc=0;\n"),
    ] {
        assert_eq!(reply(req), text, "{req}");
    }
}

#[test]
fn barriers_wait_for_all() {
    match process_pmi_request("cmd=barrier_in rank=3") {
        PmiAction::Barrier { rank, text } => {
            assert_eq!((rank, text.as_str()), (3, "cmd=barrier_out\n"));
        }
        _ => panic!("no barrier"),
    }
    match process_pmi_request("cmd=kvs-fence;rank=x;") {
        PmiAction::Barrier { rank, text } => {
            assert_eq!((rank, text.as_str()), (0, "cmd=kvs-fence-response;rc=0;\n"));
        }
        _ => panic!("no barrier"),
    }
}

#[test]
fn values_are_put_and_got() {
    match process_pmi_request("cmd=put rank=2 key=k value=a=b") {
        PmiAction::Put { rank, key, value, text } => {
            assert_eq!((rank, key.as_str(), value.as_str()), (2, "k", "a=b"));
            assert_eq!(text, "cmd=kvs-put-response;rc=0;\n");
        }
        _ => panic!("nothing put"),
    }
    match process_pmi_request("cmd=kvs-put;") {
        PmiAction::Put { rank, key, value, .. } => {
            assert_eq!((rank, key.as_str(), value.as_str()), (0, "unknown", ""));
        }
        _ => panic!("nothing put"),
    }
    match process_pmi_request("cmd=get key=k") {
        PmiAction::Get { rank, key } => assert_eq!((rank, key.as_str()), (0, "k")),
        _ => panic!("nothing asked for"),
    }
    assert_eq!(get_reply(4, 5, &Some("v".to_string())), None);
    assert_eq!(
        get_reply(4, 4, &Some("v".to_string())).as_deref(),
        Some("cmd=kvs-get-response;rc=0;value=v;\n")
    );
    assert_eq!(
        get_reply(4, 4, &None).as_deref(),
        Some("cmd=kvs-get-response;rc=0;value=unknown;\n")
    );
}

#[test]
fn requests_stand_on_lines() {
    assert_eq!(pmi_requests("cmd=a\n\n  cmd=b \n"), vec!["cmd=a", "cmd=b"]);
    assert!(pmi_requests(" \n").is_empty());
}
