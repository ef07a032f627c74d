use veloce::assets::{matching_container, sorted_distinct, template_cards, template_group_name};
use veloce::assets::{template_version, ContainerAsset, Execution, FileHandling, ParameterDef};
use veloce::assets::{first_of_product, template_versions, SolverIdentity, SolverManifest};
use veloce::json::{file_id_from, first_number, new_job_id, uploaded_file_id, JsonField};
use veloce::web::api::{auth_header, describe_http_failure, describe_request_failure};
use veloce::web::api::{failure_text, ok, ws_ticket, Reply};
use veloce::web::containers::{capabilities_text, check_registration, container_url};
use veloce::web::containers::{filtered_containers, manifest_failure, paginated_containers};
use veloce::web::containers::{registration_failure, registration_result};
use veloce::web::session::{check_key, events_url, fileserver_is_online, is_fullscreen};
use veloce::web::session::{has_admin_operator_privileges, has_admin_privileges, login_refusal};
use veloce::web::session::{login_unreachable, logout, may_view, on_stream_event, session_items};
use veloce::web::session::{starts_logged_in, ticket_failure, with_stored_key, Listener, Refresh};
use veloce::web::session::{SessionStatus, StreamEvent, WebConfig};
use veloce::web::statistics::{avg_disk_io, avg_net_io, avg_total_io, bucket_seconds_for_window};
use veloce::web::statistics::{can_average, heat_columns, history_url, io_ridges, node_label};
use veloce::web::statistics::{metrics_decode_failure, metrics_http_failure};
use veloce::web::statistics::{metrics_request_failure, range_seconds, ridge_scale, top_movers};
use veloce::web::statistics::{heat_rows, io_card, latest_io, nodes_card};
use veloce::web::statistics::{IoSample, Level, Mover, NodeSeries};
use veloce::web::submit::{card_description, final_args, final_cwd, is_archive, job_submitted};
use veloce::web::submit::{lowered_needs_note, manual, needs_license_note, number_or, param_label};
use veloce::web::submit::{parse_array_indices, payload_of, settle_template, strip_program};
use veloce::web::submit::{submission_result, submitted_name, trimmed_or_none, upload_result};
use veloce::web::submit::{with_upload, workflow_submitted, wrap_upload, Payload, SubmitForm};
use veloce::web::submit::{input_kind, large_number_or, shows_license_note, total_slots, InputKind};
use veloce::web::request::{after_upload, file_uploaded, request_of, submit_step, workflow_of};
use veloce::web::request::{JobFields, JobRequest, SubmitStep};
use veloce::web::submit::{payload_from, Submitted};

fn some(s: &str) -> Option<String> {
    Some(s.to_string())
}

fn words(list: &[&str]) -> Vec<String> {
    list.iter().map(|s| s.to_string()).collect()
}

fn param(kind: Option<&str>, default: Option<&str>, flag: Option<&str>) -> ParameterDef {
    ParameterDef {
        param_type: kind.map(|s| s.to_string()),
        default: default.map(|s| s.to_string()),
        flag: flag.map(|s| s.to_string()),
        options: None,
    }
}

fn asset(vendor: &str, product: &str, version: &str) -> ContainerAsset {
    ContainerAsset {
        id: format!("{product}-{version}"),
        name: format!("{vendor}/{product}"),
        image_uri: "s3://x".to_string(),
        manifest: SolverManifest {
            manifest_version: "1.0".to_string(),
            solver_identity: SolverIdentity {
                vendor: vendor.to_string(),
                product: product.to_string(),
                version: version.to_string(),
                capabilities: words(&["CFD", "mpi"]),
            },
            execution: Execution {
                entrypoint: "/opt/solve".to_string(),
                launch_wrapper: None,
                command_template:
                    "{{entrypoint}} -m{{memory}} -t{{cpus}} -i {{input_file}} {{debug}} {{level}} {{mode}}{{custom_args}}"
                        .to_string(),
                environment_vars: vec![],
            },
            file_handling: FileHandling {
                working_dir: "/scratch".to_string(),
                input_mapping: vec![],
                output_collection: vec![],
            },
            parameter_mapping: vec![
                ("debug".to_string(), param(Some("boolean"), Some("true"), Some("--debug"))),
                ("level".to_string(), param(None, Some("3"), Some("-l"))),
                ("mode".to_string(), param(None, None, None)),
            ],
            vnc_enabled: false,
        },
    }
}

#[test]
fn containers_are_grouped_into_cards() {
    let list =
        vec![asset("B", "x", "2"), asset("A", "y", "1"), asset("B", "x", "10"), asset("B", "x", "2")];
    assert_eq!(template_group_name(&list[0]), "B x");
    assert_eq!(template_version(&list[0]), "2");
    let cards = template_cards(&list);
    assert_eq!(cards.len(), 2);
    assert_eq!((cards[0].name.as_str(), cards[0].versions.clone()), ("A y", words(&["1"])));
    assert_eq!(cards[1].versions, words(&["10", "2"]));
    assert_eq!(cards[1].first_version, "10");
    assert!(cards[1].availability.is_none());
    assert_eq!(sorted_distinct(words(&["b", "a", "b"])), words(&["a", "b"]));
    assert_eq!(matching_container(&list, "B x", "10"), Some(2));
    assert_eq!(matching_container(&list, "B x", "77"), Some(0));
    assert_eq!(matching_container(&list, "C", "1"), None);
    assert_eq!(first_of_product(&list, "A y"), Some(1));
    assert_eq!(first_of_product(&list, "A z"), None);
    assert_eq!(template_versions(&list, "B x"), words(&["10", "2"]));
    assert!(template_versions(&list, "B").is_empty());
    assert_eq!(card_description(&cards[0]), "A y Version 1");
    assert_eq!(card_description(&cards[1]), "B x (2 versions)");
}

#[test]
fn templates_settle() {
    let cards = template_cards(&vec![asset("A", "y", "1"), asset("B", "x", "2")]);
    let settled = |t: &str, v: &str| settle_template(&cards, t, v);
    assert!(manual("General") && manual("CWL Workflow") && !manual("A y"));
    assert_eq!(settled("General", "z"), ("General".to_string(), "z".to_string()));
    assert_eq!(settled("B x", "9"), ("B x".to_string(), "2".to_string()));
    assert_eq!(settled("gone", ""), ("A y".to_string(), "1".to_string()));
    let (t, v) = settled("gone", "");
    assert_eq!(settled(&t, &v), (t.clone(), v.clone()));
    assert_eq!(settle_template(&vec![], "gone", "1"), ("General".to_string(), "".to_string()));
}

#[test]
fn forms_are_filled_in_from_containers() {
    let list = vec![asset("A", "y", "1")];
    let mut form = SubmitForm::new();
    assert_eq!((form.template.as_str(), form.cwd.as_str()), ("General", "/tmp"));
    form.template = "A y".to_string();
    form.version = "5".to_string();
    assert!(form.fill_in(&list));
    assert_eq!(form.binary, "/opt/solve");
    assert_eq!(form.cwd, "/scratch");
    assert_eq!(form.version, "1");
    assert_eq!(form.image_uri.as_deref(), Some("veloce://y-1"));
    assert_eq!(form.params.get("level").as_deref(), Some("3"));
    assert_eq!(form.params.get("mode"), None);
    form.resolve(&list, 1024, 8);
    assert_eq!(form.args, "/opt/solve -m1024 -t8 -i none --debug -l 3 ");
    form.input_file = "case.dat".to_string();
    form.params = form.params.with("debug".to_string(), "false".to_string());
    form.params = form.params.with("level".to_string(), "none".to_string());
    form.params = form.params.with("mode".to_string(), "fast".to_string());
    form.resolve(&list, 2, 1);
    assert_eq!(form.args, "/opt/solve -m2 -t1 -i case.dat   fast");
    assert_eq!(form.preview(), form.args);
    let payload = payload_of(&form);
    assert_eq!(payload.binary, "/opt/solve");
    assert_eq!(payload.args, words(&["-m2", "-t1", "-i", "case.dat", "fast"]));
    form.template = "General".to_string();
    assert!(form.fill_in(&list));
    assert_eq!((form.binary.as_str(), form.image_uri.clone()), ("", None));
    assert!(!form.fill_in(&list));
    form.binary = "b".to_string();
    form.args = "kept".to_string();
    assert_eq!(form.preview(), "b kept");
    form.resolve(&list, 1, 1);
    assert_eq!(form.args, "kept");
}

#[test]
fn commands_are_made_ready() {
    assert_eq!(final_args("run 'a b'", "run"), words(&["a b"]));
    assert_eq!(final_args("run 'a b'", ""), words(&["run", "a b"]));
    assert_eq!(final_args("run 'a", "x"), words(&["run", "'a"]));
    assert_eq!(strip_program(words(&["a", "a"]), "a"), words(&["a"]));
    assert_eq!(final_cwd(""), "/scratch");
    assert_eq!(final_cwd("/d"), "/d");
    assert_eq!(trimmed_or_none("  x "), some("x"));
    assert_eq!(trimmed_or_none("  "), None);
    assert_eq!(param_label("max_iter_ß"), "MAX ITER SS");
    assert_eq!(number_or("12", 1), 12);
    assert_eq!(number_or("x", 1), 1);
    assert!(needs_license_note("Ansys FLUENT") && !needs_license_note("Beam"));
    assert!(lowered_needs_note("fluent 1") && !lowered_needs_note("FLUENT"));
}

#[test]
fn array_indices_are_ranges_and_numbers() {
    assert_eq!(parse_array_indices("1-3, 7,x, 5 - 6"), Some(vec![1, 2, 3, 7, 5, 6]));
    assert_eq!(parse_array_indices(""), None);
    assert_eq!(parse_array_indices("3-1,1-2-3"), None);
    assert_eq!(parse_array_indices("4294967294-4294967295"), Some(vec![4294967294, 4294967295]));
}

fn payload() -> Payload {
    Payload {
        binary: "run".to_string(),
        args: words(&["a b", "c"]),
        cwd: "/d".to_string(),
        inputs: vec![],
    }
}

#[test]
fn uploads_are_fetched_by_a_script() {
    for name in ["a.tar.gz", "a.tgz", "a.tar", "a.zip"] {
        assert!(is_archive(name));
    }
    assert!(!is_archive("a.txt"));
    let p = with_upload(payload(), false, "id1", "in.zip");
    assert_eq!((p.binary.as_str(), p.cwd.as_str()), ("/bin/bash", "/tmp"));
    assert_eq!(p.args[0], "-c");
    let script = &p.args[1];
    assert!(script.starts_with("#!/bin/bash\nset -e\nWORKDIR=\"/tmp/veloce_work_$RANDOM\"\nmkdir -p \"$WORKDIR\"\n"));
    assert!(script.contains("\"$VELOCE_FILESERVER_URL/api/v1/files/id1\"\n\n# Restore Filename\nFILENAME=\"in.zip\"\nmv "));
    assert!(script.contains("set +e\nrun 'a b' c\nEXIT_CODE=$?\nset -e\n"));
    assert!(script.contains("grep -oE '[0-9a-f]{8}-[0-9a-f]{4}-[0-9a-f]{4}-[0-9a-f]{4}-[0-9a-f]{12}')"));
    assert!(script.ends_with("rm -rf \"$WORKDIR\"\n\nexit $EXIT_CODE\n"));
    assert!(p.inputs.is_empty());
    let q = wrap_upload(payload(), "LINE", false, "id1", "f");
    assert!(q.args[1].contains("\nrun LINE\n"));
}

#[test]
fn containers_get_their_uploads_staged() {
    let p = with_upload(payload(), true, "id1", "in.zip");
    assert_eq!((p.binary.as_str(), p.cwd.as_str()), ("run", "/d"));
    assert_eq!(p.args, words(&["a b", "c"]));
    assert_eq!(p.inputs.len(), 1);
    assert_eq!((p.inputs[0].file_id.as_str(), p.inputs[0].is_archive), ("id1", true));
    assert!(!p.inputs[0].is_executable);
}

#[test]
fn answers_are_read_as_json() {
    assert_eq!(new_job_id("{\"job_id\": 5, \"base_job_id\": 6}"), Some(5));
    assert_eq!(new_job_id("{\"base_job_id\": 6}"), Some(6));
    assert_eq!(new_job_id("{\"job_id\": \"5\", \"base_job_id\": 6}"), None);
    assert_eq!(new_job_id("{\"job_id\": -5}"), None);
    assert_eq!(new_job_id("{\"job_id\": 1.5}"), None);
    assert_eq!(new_job_id("not json"), None);
    assert_eq!(uploaded_file_id("\"u-1\""), "u-1");
    assert_eq!(uploaded_file_id("{\"file_id\": \"u-2\"}"), "u-2");
    assert_eq!(uploaded_file_id("{\"file_id\": 2}"), "");
    assert_eq!(uploaded_file_id("oops"), "");
    assert_eq!(first_number(&JsonField::Missing, &JsonField::Number(Some(4))), Some(4));
    assert_eq!(first_number(&JsonField::Other, &JsonField::Number(Some(4))), None);
    assert_eq!(file_id_from(None, JsonField::Text("t".to_string())), "t");
    assert_eq!(file_id_from(some("w"), JsonField::Missing), "w");
}

fn said(s: Submitted) -> String {
    match s {
        Submitted::GoTo(path) => format!("go {path}"),
        Submitted::Say(text) => text,
    }
}

#[test]
fn submissions_lead_to_the_job() {
    assert_eq!(said(job_submitted(Some(200), "{\"job_id\": 5}")), "go /jobs/5");
    assert_eq!(said(workflow_submitted(Some(201), "{\"base_job_id\": 6}")), "go /jobs/6");
    assert_eq!(
        said(workflow_submitted(Some(200), "{}")),
        "Job submitted, but response did not include a job ID (HTTP 200)."
    );
    assert_eq!(said(workflow_submitted(Some(500), "{}")), "Error: 500");
    assert_eq!(said(workflow_submitted(None, "")), "Network Error");
    assert_eq!(said(submission_result(Some(200), some("x:1"))), "go /jobs/x:1");
    assert_eq!(submitted_name(JsonField::Text("f:1".to_string()), Some(2)), some("f:1"));
    assert_eq!(submitted_name(JsonField::Missing, Some(2)), some("2"));
    assert_eq!(upload_result(Some(200), "id".to_string()), Ok("id".to_string()));
    assert_eq!(
        upload_result(Some(200), "".to_string()),
        Err("Upload failed: No File ID returned".to_string())
    );
    assert_eq!(upload_result(Some(413), "".to_string()), Err("Upload failed: 413".to_string()));
    assert_eq!(upload_result(None, "".to_string()), Err("Upload network error".to_string()));
}

#[test]
fn requests_can_fail() {
    assert!(ok(200) && ok(299) && !ok(300) && !ok(199));
    assert_eq!(describe_http_failure("Jobs", 503), "Jobs: HTTP 503");
    assert_eq!(describe_request_failure("Jobs", "lost"), "Jobs: lost");
    assert_eq!(failure_text("Jobs", &Reply::Answer(200)), None);
    assert_eq!(failure_text("Jobs", &Reply::Answer(404)).as_deref(), Some("Jobs: HTTP 404"));
    assert_eq!(failure_text("Jobs", &Reply::NoAnswer("x".to_string())).as_deref(), Some("Jobs: x"));
    assert_eq!(auth_header(&some("k")), Some(("X-API-KEY", "k".to_string())));
    assert_eq!(auth_header(&None), None);
    assert_eq!(ws_ticket(Some(200), some("t")), Ok("t".to_string()));
    assert_eq!(ws_ticket(Some(403), None), Err(403));
    assert_eq!(ws_ticket(None, None), Err(0));
}

#[test]
fn containers_are_searched() {
    let list = || vec![asset("Ansys", "Fluent", "1"), asset("Acme", "Beam", "2")];
    assert_eq!(filtered_containers(list(), "").len(), 2);
    assert_eq!(filtered_containers(list(), "FLUENT").len(), 1);
    assert_eq!(filtered_containers(list(), "cfd MPI").len(), 2);
    assert_eq!(filtered_containers(list(), "none").len(), 0);
    let many: Vec<ContainerAsset> = (0..17).map(|n| asset("V", "p", &format!("{n}"))).collect();
    assert_eq!(paginated_containers(many, "", 1).len(), 2);
    assert_eq!(capabilities_text(&asset("a", "b", "c")), "CFD, mpi");
    assert_eq!(check_registration(" n ", " u "), Ok(("n".to_string(), "u".to_string())));
    assert_eq!(check_registration(" ", "u"), Err("Name and image URI are required.".to_string()));
    assert_eq!(registration_result(201, ""), ("Container registered.".to_string(), true));
    assert_eq!(
        registration_result(409, "dup"),
        ("Registration failed: HTTP 409 — dup".to_string(), false)
    );
    assert_eq!(registration_failure("e"), "Registration failed: e");
    assert_eq!(manifest_failure("e"), "Invalid manifest JSON: e");
    assert_eq!(container_url("n"), "/api/v1/containers/n");
}

#[test]
fn roles_decide_what_is_seen() {
    let oidc = some("true");
    assert!(has_admin_operator_privileges(&None, &None));
    assert!(has_admin_privileges(&some("false"), &None));
    assert!(!has_admin_operator_privileges(&oidc, &None));
    assert!(has_admin_operator_privileges(&oidc, &some("user, operator")));
    assert!(!has_admin_privileges(&oidc, &some("user,operator")));
    assert!(has_admin_privileges(&oidc, &some("admin")));
    assert!(!may_view("/admin", &oidc, &some("user")));
    assert!(may_view("/jobs", &oidc, &None));
    assert_eq!(check_key(""), Some("Controller API Key is required"));
    assert_eq!(check_key("k"), None);
    assert_eq!(login_refusal(200), None);
    assert_eq!(login_refusal(401).as_deref(), Some("Invalid Controller API Key"));
    assert_eq!(login_refusal(500).as_deref(), Some("Server returned error: 500"));
    assert_eq!(login_unreachable("x"), "Connection error: x");
}

#[test]
fn sessions_are_stored() {
    let config = || WebConfig {
        controller_api_key: "old".to_string(),
        fileserver_url: "u".to_string(),
        fileserver_api_key: "f".to_string(),
        oidc_enabled: false,
    };
    assert_eq!(with_stored_key(config(), some("new")).controller_api_key, "new");
    assert!(starts_logged_in(&some("k"), &None));
    assert!(starts_logged_in(&None, &some("true")));
    assert!(!starts_logged_in(&None, &None));
    let status = SessionStatus {
        authenticated: true,
        user_id: some("ann"),
        roles: Some(words(&["admin", "user"])),
    };
    let items = session_items(&Some(status)).unwrap();
    assert_eq!(items[0], ("veloce_oidc_logged_in", "true".to_string()));
    assert_eq!(items[1], ("veloce_session_user_id", "ann".to_string()));
    assert_eq!(items[2], ("veloce_session_roles", "admin,user".to_string()));
    assert!(session_items(&None).is_none());
    assert_eq!(logout(true), Some("/auth/logout"));
    assert_eq!(logout(false), None);
    assert!(is_fullscreen("/jobs/1/vnc") && is_fullscreen("/jobs/1/terminal") && !is_fullscreen("/"));
    assert!(fileserver_is_online(Some(200)));
    assert!(!fileserver_is_online(None));
    assert_eq!(events_url("https:", "h:1", "t"), "wss://h:1/api/v1/ws/events?ticket=t");
    assert_eq!(events_url("http:", "h:1", "t"), "ws://h:1/api/v1/ws/events?ticket=t");
}

#[test]
fn streams_are_reopened() {
    let step = on_stream_event(Listener::App, &StreamEvent::NoTicket(403));
    assert_eq!(
        step.error,
        Some("Controller event stream unavailable (insufficient role for WebSocket ticket)")
    );
    assert_eq!((step.online, step.retry_after), (Some(false), Some(5000)));
    assert_eq!(ticket_failure(Listener::Jobs, 500), None);
    assert!(ticket_failure(Listener::App, 503).unwrap().contains("controller unreachable"));
    assert!(ticket_failure(Listener::App, 0).unwrap().contains("network error"));
    assert!(ticket_failure(Listener::App, 418).unwrap().contains("denied"));
    assert!(ticket_failure(Listener::Jobs, 401).unwrap().contains("session expired"));
    let nodes = StreamEvent::Message("nodes_updated".to_string());
    assert!(on_stream_event(Listener::App, &nodes).refresh == Some(Refresh::Nodes));
    assert!(on_stream_event(Listener::Jobs, &nodes).refresh.is_none());
    let jobs = StreamEvent::Message("jobs_updated".to_string());
    assert!(on_stream_event(Listener::Jobs, &jobs).refresh == Some(Refresh::Jobs));
    assert_eq!(on_stream_event(Listener::App, &StreamEvent::Closed).retry_after, Some(2000));
    assert_eq!(on_stream_event(Listener::App, &StreamEvent::Opened).online, Some(true));
    assert_eq!(on_stream_event(Listener::App, &StreamEvent::NotOpened).retry_after, Some(5000));
}

fn series(name: &str, samples: Vec<IoSample>) -> NodeSeries {
    NodeSeries { node_id: format!("id-{name}"), hostname: some(name), samples }
}

fn io(a: u64, b: u64, c: u64, d: u64) -> IoSample {
    IoSample { net_rx_avg: a, net_tx_avg: b, disk_read_avg: c, disk_write_avg: d }
}

#[test]
fn windows_have_buckets() {
    assert_eq!(range_seconds("1h"), 3600);
    assert_eq!(range_seconds("24h"), 86400);
    assert_eq!(range_seconds("7d"), 604800);
    assert_eq!(range_seconds("6h"), 21600);
    assert_eq!(range_seconds("?"), 21600);
    assert_eq!(bucket_seconds_for_window(3600), 30);
    assert_eq!(bucket_seconds_for_window(86400), 480);
    assert_eq!(bucket_seconds_for_window(u64::MAX), 21600);
    assert_eq!(
        history_url(10000, "1h"),
        "/api/v1/metrics/nodes?start=6400&end=10000&bucket_seconds=30"
    );
    assert_eq!(history_url(10, "1h"), "/api/v1/metrics/nodes?start=0&end=10&bucket_seconds=30");
    assert_eq!(metrics_http_failure(500), "Metrics request failed with HTTP 500");
    assert_eq!(metrics_request_failure("x"), "Metrics request failed: x");
    assert_eq!(metrics_decode_failure("x"), "Failed to decode metrics: x");
}

#[test]
fn traffic_is_averaged() {
    let n = series("a", vec![io(1, 2, 3, 4), io(2, 2, 0, 0)]);
    assert!(can_average(&n));
    assert_eq!((avg_net_io(&n), avg_disk_io(&n), avg_total_io(&n)), (3, 3, 6));
    assert_eq!(avg_total_io(&series("b", vec![])), 0);
    assert!(!can_average(&series("c", vec![io(u64::MAX, 1, 0, 0)])));
    assert_eq!(node_label(&n), "a");
    let mut unnamed = series("", vec![]);
    assert_eq!(node_label(&unnamed), "id-");
    unnamed.hostname = None;
    assert_eq!(node_label(&unnamed), "id-");
}

#[test]
fn the_busiest_six_are_drawn() {
    let nodes: Vec<NodeSeries> =
        (0..8).map(|k| series(&format!("n{k}"), vec![io(k, 0, 0, 0)])).collect();
    assert_eq!(heat_columns(&nodes), 1);
    let top = io_ridges(nodes);
    let order: Vec<(u64, &str)> =
        top.iter().map(|(v, n)| (*v, n.hostname.as_deref().unwrap_or(""))).collect();
    assert_eq!(order, vec![(7, "n7"), (6, "n6"), (5, "n5"), (4, "n4"), (3, "n3"), (2, "n2")]);
    assert_eq!(ridge_scale(&vec![series("a", vec![io(9, 0, 0, 0)])]), 9);
    assert_eq!(ridge_scale(&vec![]), 1);
}

#[test]
fn movers_are_picked() {
    let level = |key: i64| Level { key, text: format!("{key}.0%") };
    let mover = |label: &str, cpu: i64, mem: i64, io: u64, avg: i64| Mover {
        label: label.to_string(),
        cpu_peak: level(cpu),
        memory_peak: level(mem),
        io,
        cpu_average: level(avg),
    };
    let cards = top_movers(&vec![mover("a", 5, 1, 10, 4), mover("b", 5, 9, 2048, 3), mover("c", 1, 9, 5, 3)]);
    let rows: Vec<(&str, &str, &str)> =
        cards.iter().map(|c| (c.label, c.value.as_str(), c.detail.as_str())).collect();
    assert_eq!(
        rows,
        vec![
            ("CPU peak", "5.0%", "a"),
            ("Memory peak", "9.0%", "b"),
            ("I/O average", "2.0 KiB/s", "b"),
            ("Quietest node", "3.0%", "b"),
        ]
    );
    assert!(top_movers(&vec![]).is_empty());
}

#[test]
fn fields_suit_their_parameters() {
    let def = |param_type: Option<&str>, options: Option<Vec<String>>| ParameterDef {
        param_type: param_type.map(str::to_string),
        default: None,
        flag: None,
        options,
    };
    assert_eq!(input_kind(&def(Some("boolean"), Some(words(&["a"])))), InputKind::Choice);
    assert_eq!(input_kind(&def(Some("boolean"), None)), InputKind::Checkbox);
    assert_eq!(input_kind(&def(Some("integer"), None)), InputKind::Number);
    assert_eq!(input_kind(&def(Some("string"), None)), InputKind::Text);
    assert_eq!(input_kind(&def(None, None)), InputKind::Text);
    assert_eq!(total_slots(3, 4), Some(12));
    assert_eq!(total_slots(usize::MAX, 2), None);
    assert_eq!(large_number_or("4294967296", 1024), 4294967296);
    assert_eq!(large_number_or("-1", 1024), 1024);
    let list = vec![asset("B", "x", "2"), asset("Ansys", "Fluent", "1")];
    assert!(shows_license_note(&list, "Ansys Fluent"));
    assert!(!shows_license_note(&list, "B x") && !shows_license_note(&list, "C"));
}

fn typed_form() -> SubmitForm {
    let mut form = SubmitForm::new();
    form.binary = "run".to_string();
    form.args = "run 'a b' c".to_string();
    form
}

fn typed_fields() -> JobFields {
    let mut fields = JobFields::new(some("ann"));
    fields.job_name = " wing ".to_string();
    fields.job_comment = "  ".to_string();
    fields.array_indices = "1-2".to_string();
    fields
}

fn job_in(step: SubmitStep) -> JobRequest {
    match step {
        SubmitStep::SendJob { address, request } => {
            assert_eq!(address, "/api/v1/jobs");
            request
        }
        _ => panic!("no job"),
    }
}

#[test]
fn fields_start_out() {
    let fields = JobFields::new(None);
    assert_eq!(fields.user_id, "web_user");
    assert_eq!((fields.nodes, fields.cores, fields.memory), (1, 1, 1024));
    assert_eq!((fields.walltime, fields.priority), (3600, 0));
    assert_eq!(JobFields::new(some("ann")).user_id, "ann");
}

#[test]
fn jobs_are_sent() {
    let r = job_in(submit_step(&typed_form(), &typed_fields(), false));
    assert_eq!((r.job_name, r.job_comment), (some("wing"), None));
    assert_eq!((r.binary.as_str(), r.args), ("run", words(&["a b", "c"])));
    assert_eq!((r.req_nodes, r.req_cores, r.req_memory), (1, 1, 1024));
    assert_eq!((r.walltime, r.priority, r.user_id.as_str()), (3600, 0, "ann"));
    assert_eq!((r.working_directory.as_str(), r.array_indices), ("/tmp", Some(vec![1, 2])));
    assert_eq!(r.image_uri, None);
    assert!(r.inputs.is_empty());
    let given = request_of(&typed_form(), &typed_fields(), payload_from(&typed_form(), words(&["run"])));
    assert!(given.args.is_empty());
}

#[test]
fn workflows_are_sent_as_they_are() {
    let mut form = typed_form();
    form.template = "CWL Workflow".to_string();
    form.cwl_content = "cwl".to_string();
    form.cwd = "".to_string();
    match submit_step(&form, &typed_fields(), true) {
        SubmitStep::SendWorkflow { address, request } => {
            assert_eq!(address, "/api/v1/jobs/cwl");
            assert_eq!(request.cwl_content, "cwl");
            assert_eq!(request.user_id, "ann");
            assert_eq!(request.working_directory, "/scratch");
        }
        _ => panic!("no workflow"),
    }
    assert_eq!(workflow_of(&form, &typed_fields()).cwl_content, "cwl");
}

#[test]
fn picked_files_are_uploaded_first() {
    let mut form = typed_form();
    let fields = typed_fields();
    match submit_step(&form, &fields, true) {
        SubmitStep::Upload { address } => assert_eq!(address, "/api/v1/files"),
        _ => panic!("no upload"),
    }
    let r = job_in(file_uploaded(&form, &fields, "in.zip", Some(200), "{\"file_id\":\"f1\"}"));
    assert_eq!((r.binary.as_str(), r.working_directory.as_str()), ("/bin/bash", "/tmp"));
    assert_eq!(r.args[0], "-c");
    assert!(r.args[1].contains("set +e\nrun 'a b' c\nEXIT_CODE=$?\n"));
    assert!(r.args[1].contains("/api/v1/files/f1\""));
    assert!(r.inputs.is_empty());
    form.image_uri = some("veloce://c1");
    let r = job_in(file_uploaded(&form, &fields, "in.zip", Some(201), "\"f2\""));
    assert_eq!((r.binary.as_str(), r.args), ("run", words(&["a b", "c"])));
    assert_eq!(r.image_uri, some("veloce://c1"));
    assert_eq!(r.inputs.len(), 1);
    assert_eq!((r.inputs[0].file_id.as_str(), r.inputs[0].original_name.as_str()), ("f2", "in.zip"));
    assert!(r.inputs[0].is_archive && !r.inputs[0].is_executable);
    let say = |step: SubmitStep| match step {
        SubmitStep::Say { text } => text,
        _ => panic!("no text"),
    };
    assert_eq!(say(file_uploaded(&form, &fields, "a", None, "")), "Upload network error");
    assert_eq!(say(file_uploaded(&form, &fields, "a", Some(413), "")), "Upload failed: 413");
    assert_eq!(
        say(file_uploaded(&form, &fields, "a", Some(200), "{}")),
        "Upload failed: No File ID returned"
    );
    let r = job_in(after_upload(&form, &fields, "a.txt", Some(200), "f3".to_string()));
    assert!(!r.inputs[0].is_archive);
}

#[test]
fn summary_tells_the_latest_rate() {
    let sample = |a: u64, b: u64, c: u64, d: u64| IoSample {
        net_rx_avg: a,
        net_tx_avg: b,
        disk_read_avg: c,
        disk_write_avg: d,
    };
    assert_eq!(latest_io(&vec![]), Some(0));
    assert_eq!(latest_io(&vec![sample(9, 9, 9, 9), sample(1, 2, 3, 4)]), Some(10));
    assert_eq!(latest_io(&vec![sample(u64::MAX, 0, 0, 1)]), None);
    let card = io_card(&vec![sample(1024, 512, 0, 0)], "10:00", "11:00").unwrap();
    assert_eq!((card.value.as_str(), card.detail.as_str()), ("1.5 KiB/s", "10:00 to 11:00"));
    let card = nodes_card(3, 40);
    assert_eq!((card.value.as_str(), card.detail.as_str()), ("3", "40 raw samples"));
}

#[test]
fn heat_map_shows_the_first_nodes() {
    let nodes = |n: usize| {
        (0..n)
            .map(|i| NodeSeries { node_id: format!("n{i}"), hostname: None, samples: vec![] })
            .collect::<Vec<_>>()
    };
    assert_eq!(heat_rows(nodes(3)).len(), 3);
    let shown = heat_rows(nodes(20));
    assert_eq!(shown.len(), 18);
    assert_eq!(shown[17].node_id, "n17");
}
