use veloce::apptainer::ApptainerRunner;
use veloce::assets::{ContainerAsset, Execution, FileHandling, SolverIdentity, SolverManifest};

fn asset(wrapper: Option<&str>) -> ContainerAsset {
    ContainerAsset {
        id: "test".to_string(),
        name: "test".to_string(),
        image_uri: "s3://test".to_string(),
        manifest: SolverManifest {
            manifest_version: "1.0".to_string(),
            solver_identity: SolverIdentity {
                vendor: "Ansys".to_string(),
                product: "Fluent".to_string(),
                version: "2024".to_string(),
                capabilities: vec![],
            },
            execution: Execution {
                entrypoint: "/opt/fluent".to_string(),
                launch_wrapper: wrapper.map(|w| w.to_string()),
                command_template:
                    "{{entrypoint}} {{precision}} -t{{cpus}} -i {{input_file}} {{custom_args}}"
                        .to_string(),
                environment_vars: vec![(
                    "ANSYSLMD_LICENSE_FILE".to_string(),
                    "{{license_server}}".to_string(),
                )],
            },
            file_handling: FileHandling {
                working_dir: "/scratch".to_string(),
                input_mapping: vec![],
                output_collection: vec![],
            },
            parameter_mapping: vec![],
            vnc_enabled: false,
        },
    }
}

#[test]
fn test_apptainer_command_builder() {
    let asset = asset(Some("apptainer exec --nv"));

    let runner = ApptainerRunner::new(&asset, "/local/job123", "/images/fluent.sif");

    let (bin, args) = runner.build_command("-g", "case.cas", 123, None).unwrap();

    assert_eq!(bin, "sh");
    // "case.cas" has no directory, so nothing more is bound.
    assert_eq!(args, vec!["-c".to_string(), "apptainer exec --nv --pid --ipc --uts --hostname veloce-job-123 --bind /local/job123:/scratch --pwd /scratch /images/fluent.sif case.cas -g".to_string()]);

    let envs = runner.build_environment_vars();
    assert_eq!(envs.len(), 1);
    assert_eq!(
        envs[0],
        (
            "APPTAINERENV_ANSYSLMD_LICENSE_FILE".to_string(),
            "1055@licserver".to_string()
        )
    );
}

#[test]
fn binds_the_directory_of_the_input() {
    let asset = asset(Some("  "));
    let runner = ApptainerRunner::new(&asset, "/s", "/i.sif");
    let (_, args) = runner.build_command("", "/data/in/case.cas", 7, Some("/tmp/pmix")).unwrap();
    assert_eq!(
        args[1],
        "apptainer exec --pid --ipc --uts --hostname veloce-job-7 --bind /s:/scratch --pwd /scratch --bind /tmp/pmix:/tmp/pmix --bind /data/in:/data/in /i.sif /data/in/case.cas"
    );
    let (_, at_root) = runner.build_command("", "/case.cas", 7, None).unwrap();
    assert!(!at_root[1].contains("--bind /:/"));
}

#[test]
fn runs_the_image_alone() {
    let asset = asset(None);
    let runner = ApptainerRunner::new(&asset, "/s", "/i.sif");
    let (_, args) = runner.build_command("", "", 1, None).unwrap();
    assert_eq!(
        args[1],
        "apptainer exec --pid --ipc --uts --hostname veloce-job-1 --bind /s:/scratch --pwd /scratch /i.sif"
    );
    let (_, with_args) = runner.build_command("-x y", "", 1, None).unwrap();
    assert!(with_args[1].ends_with("/i.sif -x y"));
}
