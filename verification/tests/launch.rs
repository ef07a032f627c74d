use veloce::assets::{ContainerAsset, Execution, FileHandling, SolverIdentity, SolverManifest};
use veloce::cgroups::GresEntry;
use veloce::envs::EnvList;
use veloce::job_runner::JobFacts;
use veloce::launch::{job_variables, step_variables, uses_pmix, JobLaunch, LocalImage, StepLaunch};
use veloce::shell::HostPaths;

fn words(list: &[&str]) -> Vec<String> {
    list.iter().map(|s| s.to_string()).collect()
}

fn pair(name: &str, value: &str) -> (String, String) {
    (name.to_string(), value.to_string())
}

fn vars(list: &[(&str, &str)]) -> EnvList {
    let pairs: Vec<(String, String)> = list.iter().map(|(n, v)| pair(n, v)).collect();
    EnvList::new().with_all(&pairs)
}

fn asset() -> ContainerAsset {
    ContainerAsset {
        id: "c".to_string(),
        name: "c".to_string(),
        image_uri: "s3://c".to_string(),
        manifest: SolverManifest {
            manifest_version: "1.0".to_string(),
            solver_identity: SolverIdentity {
                vendor: "".to_string(),
                product: "".to_string(),
                version: "".to_string(),
                capabilities: vec![],
            },
            execution: Execution {
                entrypoint: "".to_string(),
                launch_wrapper: None,
                command_template: "".to_string(),
                environment_vars: vec![pair("LM", "{{license_server}}")],
            },
            file_handling: FileHandling {
                working_dir: "/in".to_string(),
                input_mapping: vec![],
                output_collection: vec![],
            },
            parameter_mapping: vec![],
            vnc_enabled: false,
        },
    }
}

fn order<'a>(image: Option<LocalImage<'a>>) -> JobLaunch<'a> {
    JobLaunch {
        job_id: 9,
        worker_id: "w2".to_string(),
        node_list: words(&["w2"]),
        working_directory: "/w".to_string(),
        image,
        pmix: true,
        pmix_socket: Some("/tmp/s".to_string()),
        vnc_port: None,
        host_env: vec![pair("PATH", "/bin"), pair("VELOCE_SECRET", "host")],
        secret: "top".to_string(),
        controller_url: "https://c".to_string(),
        fileserver_url: "https://f".to_string(),
        fileserver_key: "k".to_string(),
    }
}

#[test]
fn jobs_get_their_variables() {
    let own = vars(&[("PATH", "/opt"), ("VELOCE_SECRET", "mine"), ("X", "1")]);
    let l = order(None).launch("run", &words(&["a b"]), &own);
    assert_eq!(l.program, "run");
    assert_eq!(l.args, words(&["a b"]));
    for (name, value) in [
        ("PATH", "/opt"),
        ("X", "1"),
        ("VELOCE_SECRET", "top"),
        ("VELOCE_JOB_ID", "9"),
        ("VELOCE_RANK", "0"),
        ("VELOCE_SIZE", "1"),
        ("VELOCE_CONTROLLER_URL", "https://c"),
        ("VELOCE_CA_CERT", "/app/certs/ca.pem"),
        ("VELOCE_FILESERVER_URL", "https://f"),
        ("VELOCE_FILESERVER_KEY", "k"),
    ] {
        assert_eq!(l.env.get(name).as_deref(), Some(value), "{name}");
    }
    assert_eq!(l.env.get("PMIX_SERVER_URI"), None);
    assert_eq!(l.env.get("APPTAINERENV_VELOCE_VNC_PORT"), None);
}

#[test]
fn containers_run_a_line() {
    let a = asset();
    let image = LocalImage { asset: &a, image_path: "/img".to_string() };
    let mut o = order(Some(image));
    o.vnc_port = Some(5901);
    let own = vars(&[("VELOCE_USE_PMIX", "1")]);
    let l = o.launch("/opt/run", &words(&["a b", "c"]), &own);
    assert_eq!(l.program, "sh");
    assert_eq!(
        l.args,
        words(&[
            "-c",
            "apptainer exec --pid --ipc --uts --hostname veloce-job-9 --bind /w:/in --pwd /in --bind /tmp/pmix.veloce:/tmp/pmix.veloce --bind /opt:/opt /img /opt/run 'a b' c",
        ])
    );
    assert_eq!(l.env.get("APPTAINERENV_LM").as_deref(), Some("1055@licserver"));
    assert_eq!(l.env.get("APPTAINERENV_VELOCE_VNC_PORT").as_deref(), Some("5901"));
    assert_eq!(
        l.env.get("APPTAINERENV_PMIX_SERVER_URI").as_deref(),
        Some("pmix-job-9:unix-socket=/tmp/s")
    );
    assert_eq!(l.env.get("APPTAINERENV_PMIX_NAMESPACE").as_deref(), Some("pmix-job-9"));
    assert_eq!(l.env.get("APPTAINERENV_PMIX_RANK").as_deref(), Some("0"));
}

#[test]
fn pmix_is_for_one_node() {
    let wanted = vars(&[("VELOCE_USE_PMIX", "1"), ("VELOCE_RANK", "3")]);
    assert!(uses_pmix(&wanted, 1));
    assert!(!uses_pmix(&wanted, 2));
    assert!(!uses_pmix(&vars(&[("VELOCE_USE_PMIX", "yes")]), 1));
    let l = order(None).launch("run", &vec![], &wanted);
    assert_eq!(l.env.get("PMIX_SERVER_URI").as_deref(), Some("pmix-job-9:unix-socket=/tmp/s"));
    assert_eq!(l.env.get("PMIX_NAMESPACE").as_deref(), Some("pmix-job-9"));
    assert_eq!(l.env.get("PMIX_RANK").as_deref(), Some("3"));
    let mut two = order(None);
    two.node_list = words(&["w1", "w2"]);
    let l = two.launch("run", &vec![], &wanted);
    assert_eq!(l.env.get("PMIX_RANK"), None);
    assert_eq!(l.env.get("VELOCE_SIZE").as_deref(), Some("2"));
    let mut without = order(None);
    without.pmix = false;
    assert_eq!(without.launch("run", &vec![], &wanted).env.get("PMIX_RANK"), None);
}

fn facts() -> JobFacts {
    JobFacts {
        job_id: 9,
        node_list: words(&["n"]),
        working_directory: "/w".to_string(),
        hostfile_path: "/h".to_string(),
        array_id: None,
        array_task_id: None,
        user_id: "ann".to_string(),
    }
}

#[test]
fn submitted_variables_prevail() {
    let env = job_variables(&facts(), &vec![], &vec![pair("VELOCE_NODES", "mine"), pair("A", "b")]);
    assert_eq!(env.get("VELOCE_NODES").as_deref(), Some("mine"));
    assert_eq!(env.get("A").as_deref(), Some("b"));
    let gres = vec![GresEntry { name: "gpu".to_string(), ids: vec![2] }];
    let env = job_variables(&facts(), &gres, &vec![]);
    assert_eq!(env.get("VELOCE_ALLOCATED_GRES").as_deref(), Some("{\"gpu\":[2]}"));
}

#[test]
fn ranks_find_each_other() {
    let shared = step_variables(&facts(), &vec![pair("PMI_SIZE", "0")], 4, 7000, 8);
    for (name, value) in [
        ("VELOCE_STEP_ID", "4"),
        ("PMI_PORT", "127.0.0.1:7000"),
        ("PMI2_PORT", "127.0.0.1:7000"),
        ("PMI_SIZE", "8"),
        ("PMI_VERSION", "2"),
        ("PMI_SUBVERSION", "0"),
        ("VELOCE_JOB_ID", "9"),
    ] {
        assert_eq!(shared.get(name).as_deref(), Some(value), "{name}");
    }
    let step = StepLaunch {
        job_id: 9,
        step_id: 4,
        total_ranks: 8,
        host: HostPaths {
            path: "/bin".to_string(),
            ld_library_path: "".to_string(),
            dyld_library_path: "".to_string(),
        },
        host_env: vec![pair("HOME", "/root"), pair("PMI_ID", "x")],
        secret: "top".to_string(),
        controller_url: "u".to_string(),
        fileserver_url: "f".to_string(),
        fileserver_key: "k".to_string(),
    };
    let l = step.launch("PATH=/o:$PATH; prog -v", &words(&["z"]), &shared, 3);
    assert_eq!(l.program, "prog");
    assert_eq!(l.args, words(&["-v", "z"]));
    for (name, value) in [
        ("HOME", "/root"),
        ("PMI_ID", "3"),
        ("PMI_RANK", "3"),
        ("VELOCE_RANK", "3"),
        ("VELOCE_SIZE", "8"),
        ("PATH", "/o:/bin"),
        ("VELOCE_SECRET", "top"),
        ("VELOCE_STEP_ID", "4"),
        ("VELOCE_FILESERVER_KEY", "k"),
    ] {
        assert_eq!(l.env.get(name).as_deref(), Some(value), "{name}");
    }
}
