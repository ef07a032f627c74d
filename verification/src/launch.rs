//! What jobs and the ranks of steps are started with: the program, its arguments and its
//! variables.

use vstd::prelude::*;

use crate::apptainer::container_vars;
use crate::apptainer::law_containers_run_the_program;
use crate::apptainer::law_containers_see_the_jobs_directory;
use crate::apptainer::ApptainerRunner;
use crate::assets::ContainerAsset;
use crate::cgroups::GresEntry;
use crate::envs::law_last_value_prevails;
use crate::envs::law_other_names_stay;
use crate::envs::overlaid;
use crate::envs::pair_texts;
use crate::envs::EnvList;
use crate::job_runner::distinct_gres;
use crate::job_runner::gres_map;
use crate::job_runner::gres_of_json;
use crate::job_runner::job_env;
use crate::job_runner::job_rank;
use crate::job_runner::job_size;
use crate::job_runner::prepare_job_env;
use crate::job_runner::rank_in;
use crate::job_runner::size_in;
use crate::job_runner::JobFacts;
use crate::numbers::decimal;
use crate::numbers::decimal_u32;
use crate::numbers::decimal_u64;
use crate::pmix::get_server_uri;
use crate::pmix::namespace_of;
use crate::pmix::namespace_name;
use crate::pmix::SOCKET_DIR;
use crate::shell::parse_shell_prefix_command;
use crate::shell::prefix_command;
use crate::shell::shell_join;
use crate::shell::shell_join_of;
use crate::shell::HostPaths;
use crate::text::copy_texts;
use crate::text::has_suffix;
use crate::text::has_text;
use crate::text::is_space;
use crate::text::lemma_ends_with;
use crate::text::lemma_still_holds;
use crate::text::str_eq;
use crate::text::texts;

verus! {

/// A process to start.
pub struct Launch {
    pub program: String,
    pub args: Vec<String>,
    pub env: EnvList,
}

/// The variables of a job's own: those that tell it about itself, and on top of them those
/// that it was submitted with.
pub fn job_variables(
    f: &JobFacts,
    allocated_gres: &Vec<GresEntry>,
    env_vars: &Vec<(String, String)>,
) -> (r: EnvList)
    requires
        distinct_gres(allocated_gres@),
    ensures
        allocated_gres@.len() == 0 ==> r@ == overlaid(job_env(*f, None), pair_texts(env_vars@)),
        allocated_gres@.len() > 0 ==> exists|json: Seq<char>| #[trigger]
            gres_of_json(json) == Some(gres_map(allocated_gres@)) && r@ == overlaid(
                job_env(*f, Some(json)),
                pair_texts(env_vars@),
            ),
{
    prepare_job_env(f, allocated_gres).with_all(env_vars)
}

/// A job uses PMIx where it asks for it and runs on one node.
pub open spec fn wants_pmix(vars: Map<Seq<char>, Seq<char>>, node_count: nat) -> bool {
    vars.contains_key("VELOCE_USE_PMIX"@) && vars["VELOCE_USE_PMIX"@] == "1"@ && node_count <= 1
}

pub fn uses_pmix(vars: &EnvList, node_count: usize) -> (r: bool)
    ensures
        r == wants_pmix(vars@, node_count as nat),
{
    match vars.get("VELOCE_USE_PMIX") {
        Some(v) => str_eq(&v, "1") && node_count <= 1,
        None => false,
    }
}

/// A container and where its image has been put.
pub struct LocalImage<'a> {
    pub asset: &'a ContainerAsset,
    pub image_path: String,
}

/// What a job is started with, besides its command and its own variables.
pub struct JobLaunch<'a> {
    pub job_id: u64,
    pub worker_id: String,
    pub node_list: Vec<String>,
    pub working_directory: String,
    pub image: Option<LocalImage<'a>>,
    /// This worker offers PMIx.
    pub pmix: bool,
    pub pmix_socket: Option<String>,
    pub vnc_port: Option<u16>,
    pub host_env: Vec<(String, String)>,
    pub secret: String,
    pub controller_url: String,
    pub fileserver_url: String,
    pub fileserver_key: String,
}

impl<'a> JobLaunch<'a> {
    /// The job is to find the PMIx server.
    pub open spec fn with_pmix(&self, vars: Map<Seq<char>, Seq<char>>) -> bool {
        self.pmix && wants_pmix(vars, self.node_list@.len())
    }

    /// The program and the arguments: those given, or those that run them in the container.
    pub open spec fn command(
        &self,
        binary: Seq<char>,
        args: Seq<Seq<char>>,
        vars: Map<Seq<char>, Seq<char>>,
    ) -> (Seq<char>, Seq<Seq<char>>) {
        match self.image {
            Some(i) => {
                let runner = ApptainerRunner {
                    manifest: &i.asset.manifest,
                    job_scratch: self.working_directory,
                    image_path: i.image_path,
                };
                let dir = if self.with_pmix(vars) {
                    Some(SOCKET_DIR)
                } else {
                    None
                };
                (
                    "sh"@,
                    seq![
                        "-c"@,
                        runner.command_line(shell_join_of(args), binary, self.job_id, dir),
                    ],
                )
            },
            None => (binary, args),
        }
    }

    /// The variables by which a process finds the PMIx server; a container hands them in under
    /// names of its own.
    pub open spec fn pmix_vars(
        &self,
        base: Map<Seq<char>, Seq<char>>,
        vars: Map<Seq<char>, Seq<char>>,
    ) -> Map<Seq<char>, Seq<char>> {
        if !self.with_pmix(vars) || self.pmix_socket is None {
            base
        } else {
            let uri = namespace_of(self.job_id) + ":unix-socket="@ + self.pmix_socket->0@;
            let rank = decimal(rank_in(vars, self.node_list@, self.worker_id@) as nat);
            if self.image is Some {
                base.insert("APPTAINERENV_PMIX_SERVER_URI"@, uri).insert(
                    "APPTAINERENV_PMIX_NAMESPACE"@,
                    namespace_of(self.job_id),
                ).insert("APPTAINERENV_PMIX_RANK"@, rank)
            } else {
                base.insert("PMIX_SERVER_URI"@, uri).insert(
                    "PMIX_NAMESPACE"@,
                    namespace_of(self.job_id),
                ).insert("PMIX_RANK"@, rank)
            }
        }
    }

    /// The variables that the container sets for what runs inside.
    pub open spec fn image_vars(&self) -> Seq<(Seq<char>, Seq<char>)> {
        match self.image {
            Some(i) => container_vars(pair_texts(i.asset.manifest.execution.environment_vars@)),
            None => Seq::empty(),
        }
    }

    /// The variables in which a job is started. What comes later overrides what comes before:
    /// the host's, the job's own, the container's, and last those that the worker vouches for.
    pub open spec fn env(&self, vars: Map<Seq<char>, Seq<char>>) -> Map<Seq<char>, Seq<char>> {
        let none = Map::<Seq<char>, Seq<char>>::empty();
        let e0 = match self.vnc_port {
            Some(port) => none.insert("APPTAINERENV_VELOCE_VNC_PORT"@, decimal(port as nat)),
            None => none,
        };
        let e1 = overlaid(self.pmix_vars(e0, vars), pair_texts(self.host_env@));
        let e2 = overlaid(e1.union_prefer_right(vars), self.image_vars());
        e2.insert("VELOCE_JOB_ID"@, decimal(self.job_id as nat)).insert(
            "VELOCE_RANK"@,
            decimal(rank_in(vars, self.node_list@, self.worker_id@) as nat),
        ).insert("VELOCE_SIZE"@, decimal(size_in(vars, self.node_list@) as nat)).insert(
            "VELOCE_SECRET"@,
            self.secret@,
        ).insert("VELOCE_CONTROLLER_URL"@, self.controller_url@).insert(
            "VELOCE_CA_CERT"@,
            "/app/certs/ca.pem"@,
        ).insert("VELOCE_FILESERVER_URL"@, self.fileserver_url@).insert(
            "VELOCE_FILESERVER_KEY"@,
            self.fileserver_key@,
        )
    }

    fn first_vars(&self, vars: &EnvList, wanted: bool, rank: u64) -> (r: EnvList)
        requires
            wanted == self.with_pmix(vars@),
            rank == rank_in(vars@, self.node_list@, self.worker_id@),
        ensures
            r@ == self.pmix_vars(
                (match self.vnc_port {
                    Some(port) => Map::<Seq<char>, Seq<char>>::empty().insert(
                        "APPTAINERENV_VELOCE_VNC_PORT"@,
                        decimal(port as nat),
                    ),
                    None => Map::empty(),
                }),
                vars@,
            ),
    {
        let mut e: EnvList = EnvList::new();
        if let Some(port) = self.vnc_port {
            e = e.with("APPTAINERENV_VELOCE_VNC_PORT".to_owned(), decimal_u32(port as u32));
        }
        if !wanted {
            return e;
        }
        match get_server_uri(&self.pmix_socket, self.job_id) {
            Some(uri) => {
                let name: String = namespace_name(self.job_id);
                match &self.image {
                    Some(_) => e.with("APPTAINERENV_PMIX_SERVER_URI".to_owned(), uri).with(
                        "APPTAINERENV_PMIX_NAMESPACE".to_owned(),
                        name,
                    ).with("APPTAINERENV_PMIX_RANK".to_owned(), decimal_u64(rank)),
                    None => e.with("PMIX_SERVER_URI".to_owned(), uri).with(
                        "PMIX_NAMESPACE".to_owned(),
                        name,
                    ).with("PMIX_RANK".to_owned(), decimal_u64(rank)),
                }
            },
            None => e,
        }
    }

    /// What starts a job with the given command and the given variables of its own.
    pub fn launch(&self, binary: &str, args: &Vec<String>, vars: &EnvList) -> (r: Launch)
        ensures
            (r.program@, texts(r.args@)) == self.command(binary@, texts(args@), vars@),
            r.env@ == self.env(vars@),
    {
        let wanted: bool = self.pmix && uses_pmix(vars, self.node_list.len());
        let rank: u64 = job_rank(vars, &self.node_list, &self.worker_id);
        let size: u64 = job_size(vars, &self.node_list);
        let mut e: EnvList = self.first_vars(vars, wanted, rank);
        e = e.with_all(&self.host_env);
        e = e.under(vars);
        let mut program: String = binary.to_owned();
        let mut launch_args: Vec<String> = copy_texts(args);
        if let Some(i) = &self.image {
            let runner = ApptainerRunner::new(i.asset, &self.working_directory, &i.image_path);
            let dir: Option<&str> = if wanted {
                Some(SOCKET_DIR)
            } else {
                None
            };
            let line: String = shell_join(args);
            if let Ok((sh, sh_args)) = runner.build_command(&line, binary, self.job_id, dir) {
                program = sh;
                launch_args = sh_args;
            }
            e = e.with_all(&runner.build_environment_vars());
        }
        e = e.with("VELOCE_JOB_ID".to_owned(), decimal_u64(self.job_id));
        e = e.with("VELOCE_RANK".to_owned(), decimal_u64(rank));
        e = e.with("VELOCE_SIZE".to_owned(), decimal_u64(size));
        e = e.with("VELOCE_SECRET".to_owned(), self.secret.clone());
        e = e.with("VELOCE_CONTROLLER_URL".to_owned(), self.controller_url.clone());
        e = e.with("VELOCE_CA_CERT".to_owned(), "/app/certs/ca.pem".to_owned());
        e = e.with("VELOCE_FILESERVER_URL".to_owned(), self.fileserver_url.clone());
        e = e.with("VELOCE_FILESERVER_KEY".to_owned(), self.fileserver_key.clone());
        Launch { program, args: launch_args, env: e }
    }
}

/// Whatever the host, the job and its container set, a job learns its number, its rank, its
/// size, its secret and where to find the controller and its files from the worker.
pub proof fn law_jobs_cannot_override_the_worker(o: JobLaunch, vars: Map<Seq<char>, Seq<char>>)
    ensures
        o.env(vars)["VELOCE_JOB_ID"@] == decimal(o.job_id as nat),
        o.env(vars)["VELOCE_RANK"@] == decimal(
            rank_in(vars, o.node_list@, o.worker_id@) as nat,
        ),
        o.env(vars)["VELOCE_SIZE"@] == decimal(size_in(vars, o.node_list@) as nat),
        o.env(vars)["VELOCE_SECRET"@] == o.secret@,
        o.env(vars)["VELOCE_CONTROLLER_URL"@] == o.controller_url@,
        o.env(vars)["VELOCE_CA_CERT"@] == "/app/certs/ca.pem"@,
        o.env(vars)["VELOCE_FILESERVER_URL"@] == o.fileserver_url@,
        o.env(vars)["VELOCE_FILESERVER_KEY"@] == o.fileserver_key@,
{
    reveal_strlit("VELOCE_JOB_ID");
    reveal_strlit("VELOCE_RANK");
    reveal_strlit("VELOCE_SIZE");
    reveal_strlit("VELOCE_SECRET");
    reveal_strlit("VELOCE_CONTROLLER_URL");
    reveal_strlit("VELOCE_CA_CERT");
    reveal_strlit("VELOCE_FILESERVER_URL");
    reveal_strlit("VELOCE_FILESERVER_KEY");
    assert("VELOCE_JOB_ID"@.len() == 13);
    assert("VELOCE_RANK"@.len() == 11);
    assert("VELOCE_SIZE"@.len() == 11);
    assert("VELOCE_SECRET"@.len() == 13);
    assert("VELOCE_CONTROLLER_URL"@.len() == 21);
    assert("VELOCE_CA_CERT"@.len() == 14);
    assert("VELOCE_FILESERVER_URL"@.len() == 21);
    assert("VELOCE_FILESERVER_KEY"@.len() == 21);
    assert("VELOCE_JOB_ID"@[7] != "VELOCE_SECRET"@[7]);
    assert("VELOCE_RANK"@[7] != "VELOCE_SIZE"@[7]);
    assert("VELOCE_CONTROLLER_URL"@[7] != "VELOCE_FILESERVER_URL"@[7]);
    assert("VELOCE_CONTROLLER_URL"@[7] != "VELOCE_FILESERVER_KEY"@[7]);
    assert("VELOCE_FILESERVER_URL"@[18] != "VELOCE_FILESERVER_KEY"@[18]);
}

/// The variables that the processes of a step share.
pub open spec fn step_env(
    base: Map<Seq<char>, Seq<char>>,
    step_id: u32,
    pmi_port: u16,
    total_ranks: u32,
) -> Map<Seq<char>, Seq<char>> {
    let addr = "127.0.0.1:"@ + decimal(pmi_port as nat);
    base.insert("VELOCE_STEP_ID"@, decimal(step_id as nat)).insert("PMI_PORT"@, addr).insert(
        "PMI_SIZE"@,
        decimal(total_ranks as nat),
    ).insert("PMI2_PORT"@, addr).insert("PMI_VERSION"@, "2"@).insert("PMI_SUBVERSION"@, "0"@)
}

/// The variables of a step: those that tell it about the job, those that it was submitted
/// with, and those by which its ranks find each other.
pub fn step_variables(
    f: &JobFacts,
    env_vars: &Vec<(String, String)>,
    step_id: u32,
    pmi_port: u16,
    total_ranks: u32,
) -> (r: EnvList)
    ensures
        r@ == step_env(
            overlaid(job_env(*f, None), pair_texts(env_vars@)),
            step_id,
            pmi_port,
            total_ranks,
        ),
{
    let mut addr: String = "127.0.0.1:".to_owned();
    addr.append(&decimal_u32(pmi_port as u32));
    let none: Vec<GresEntry> = Vec::new();
    job_variables(f, &none, env_vars).with("VELOCE_STEP_ID".to_owned(), decimal_u32(step_id)).with(
        "PMI_PORT".to_owned(),
        addr.clone(),
    ).with("PMI_SIZE".to_owned(), decimal_u32(total_ranks)).with("PMI2_PORT".to_owned(), addr).with(
        "PMI_VERSION".to_owned(),
        "2".to_owned(),
    ).with("PMI_SUBVERSION".to_owned(), "0".to_owned())
}

/// The variables of one rank of a step.
pub open spec fn rank_env(
    base: Map<Seq<char>, Seq<char>>,
    rank: u32,
    total_ranks: u32,
) -> Map<Seq<char>, Seq<char>> {
    base.insert("PMI_ID"@, decimal(rank as nat)).insert("PMI_RANK"@, decimal(rank as nat)).insert(
        "VELOCE_RANK"@,
        decimal(rank as nat),
    ).insert("VELOCE_SIZE"@, decimal(total_ranks as nat))
}

/// What the ranks of a step are started with, besides their command and the step's variables.
pub struct StepLaunch {
    pub job_id: u64,
    pub step_id: u32,
    pub total_ranks: u32,
    pub host: HostPaths,
    pub host_env: Vec<(String, String)>,
    pub secret: String,
    pub controller_url: String,
    pub fileserver_url: String,
    pub fileserver_key: String,
}

impl StepLaunch {
    /// The variables in which a rank is started: the host's, the rank's, those that the
    /// command sets, and last those that the worker vouches for.
    pub open spec fn env(
        &self,
        vars: Map<Seq<char>, Seq<char>>,
        rank: u32,
        set: Map<Seq<char>, Seq<char>>,
    ) -> Map<Seq<char>, Seq<char>> {
        let e1 = overlaid(Map::empty(), pair_texts(self.host_env@));
        let e2 = e1.union_prefer_right(rank_env(vars, rank, self.total_ranks));
        e2.union_prefer_right(set).insert("VELOCE_JOB_ID"@, decimal(self.job_id as nat)).insert(
            "VELOCE_STEP_ID"@,
            decimal(self.step_id as nat),
        ).insert("VELOCE_SECRET"@, self.secret@).insert(
            "VELOCE_CONTROLLER_URL"@,
            self.controller_url@,
        ).insert("VELOCE_CA_CERT"@, "/app/certs/ca.pem"@).insert(
            "VELOCE_FILESERVER_URL"@,
            self.fileserver_url@,
        ).insert("VELOCE_FILESERVER_KEY"@, self.fileserver_key@)
    }

    /// What starts one rank of a step with the given command and the step's variables.
    pub fn launch(&self, binary: &str, args: &Vec<String>, vars: &EnvList, rank: u32) -> (r: Launch)
        ensures
            ({
                let command = prefix_command(binary@, texts(args@), self.host);
                &&& r.program@ == command.binary
                &&& texts(r.args@) == command.args
                &&& r.env@ == self.env(vars@, rank, command.env)
            }),
    {
        let command = parse_shell_prefix_command(binary, args, &self.host);
        let own: EnvList = EnvList::new().under(vars).with(
            "PMI_ID".to_owned(),
            decimal_u32(rank),
        ).with("PMI_RANK".to_owned(), decimal_u32(rank)).with(
            "VELOCE_RANK".to_owned(),
            decimal_u32(rank),
        ).with("VELOCE_SIZE".to_owned(), decimal_u32(self.total_ranks));
        assert(Map::<Seq<char>, Seq<char>>::empty().union_prefer_right(vars@) =~= vars@);
        let mut e: EnvList = EnvList::new().with_all(&self.host_env);
        e = e.under(&own);
        e = e.under(&command.env);
        e = e.with("VELOCE_JOB_ID".to_owned(), decimal_u64(self.job_id));
        e = e.with("VELOCE_STEP_ID".to_owned(), decimal_u32(self.step_id));
        e = e.with("VELOCE_SECRET".to_owned(), self.secret.clone());
        e = e.with("VELOCE_CONTROLLER_URL".to_owned(), self.controller_url.clone());
        e = e.with("VELOCE_CA_CERT".to_owned(), "/app/certs/ca.pem".to_owned());
        e = e.with("VELOCE_FILESERVER_URL".to_owned(), self.fileserver_url.clone());
        e = e.with("VELOCE_FILESERVER_KEY".to_owned(), self.fileserver_key.clone());
        Launch { program: command.binary, args: command.args, env: e }
    }
}

/// The variables whose value a job has from the worker alone.
pub open spec fn vouched_for(name: Seq<char>) -> bool {
    name == "VELOCE_JOB_ID"@ || name == "VELOCE_RANK"@ || name == "VELOCE_SIZE"@ || name
        == "VELOCE_SECRET"@ || name == "VELOCE_CONTROLLER_URL"@ || name == "VELOCE_CA_CERT"@ || name
        == "VELOCE_FILESERVER_URL"@ || name == "VELOCE_FILESERVER_KEY"@
}

/// The pair is the last in the list with its name.
pub open spec fn sets_last(pairs: Seq<(Seq<char>, Seq<char>)>, i: int) -> bool {
    0 <= i < pairs.len() && forall|j: int|
        i < j < pairs.len() ==> (#[trigger] pairs[j]).0 != pairs[i].0
}

/// The list sets no such name.
pub open spec fn leaves_alone(pairs: Seq<(Seq<char>, Seq<char>)>, name: Seq<char>) -> bool {
    forall|i: int| 0 <= i < pairs.len() ==> (#[trigger] pairs[i]).0 != name
}

/// Of the variables that the worker does not vouch for, what a container sets goes before what its
/// job sets, and that before what the host has.
pub proof fn law_containers_go_before_jobs_before_hosts(
    o: JobLaunch,
    vars: Map<Seq<char>, Seq<char>>,
    name: Seq<char>,
    i: int,
)
    requires
        !vouched_for(name),
    ensures
        sets_last(o.image_vars(), i) && o.image_vars()[i].0 == name ==> o.env(vars).contains_key(name)
            && o.env(vars)[name] == o.image_vars()[i].1,
        leaves_alone(o.image_vars(), name) && vars.contains_key(name) ==> o.env(vars).contains_key(
            name,
        ) && o.env(vars)[name] == vars[name],
        leaves_alone(o.image_vars(), name) && !vars.contains_key(name) && sets_last(
            pair_texts(o.host_env@),
            i,
        ) && o.host_env@[i].0@ == name ==> o.env(vars).contains_key(name) && o.env(vars)[name]
            == o.host_env@[i].1@,
{
    let none = Map::<Seq<char>, Seq<char>>::empty();
    let e0 = match o.vnc_port {
        Some(port) => none.insert("APPTAINERENV_VELOCE_VNC_PORT"@, decimal(port as nat)),
        None => none,
    };
    let host = pair_texts(o.host_env@);
    let first = o.pmix_vars(e0, vars);
    let e1 = overlaid(first, host);
    let e2 = e1.union_prefer_right(vars);
    if sets_last(o.image_vars(), i) {
        law_last_value_prevails(e2, o.image_vars(), i);
    }
    if leaves_alone(o.image_vars(), name) {
        law_other_names_stay(e2, o.image_vars(), name);
    }
    if sets_last(host, i) {
        law_last_value_prevails(first, host, i);
    }
}

/// Where nobody sets it otherwise, a job with a desktop learns its port.
pub proof fn law_jobs_learn_the_port_of_their_desktop(o: JobLaunch, vars: Map<Seq<char>, Seq<char>>)
    requires
        leaves_alone(o.image_vars(), "APPTAINERENV_VELOCE_VNC_PORT"@),
        leaves_alone(pair_texts(o.host_env@), "APPTAINERENV_VELOCE_VNC_PORT"@),
        !vars.contains_key("APPTAINERENV_VELOCE_VNC_PORT"@),
    ensures
        o.env(vars).contains_key("APPTAINERENV_VELOCE_VNC_PORT"@) <==> o.vnc_port is Some,
        o.vnc_port is Some ==> o.env(vars)["APPTAINERENV_VELOCE_VNC_PORT"@] == decimal(
            o.vnc_port->0 as nat,
        ),
{
    reveal_strlit("VELOCE_JOB_ID");
    reveal_strlit("VELOCE_RANK");
    reveal_strlit("VELOCE_SIZE");
    reveal_strlit("VELOCE_SECRET");
    reveal_strlit("VELOCE_CONTROLLER_URL");
    reveal_strlit("VELOCE_CA_CERT");
    reveal_strlit("VELOCE_FILESERVER_URL");
    reveal_strlit("VELOCE_FILESERVER_KEY");
    reveal_strlit("PMIX_SERVER_URI");
    reveal_strlit("PMIX_NAMESPACE");
    reveal_strlit("PMIX_RANK");
    reveal_strlit("APPTAINERENV_PMIX_SERVER_URI");
    reveal_strlit("APPTAINERENV_PMIX_NAMESPACE");
    reveal_strlit("APPTAINERENV_PMIX_RANK");
    reveal_strlit("APPTAINERENV_VELOCE_VNC_PORT");
    assert("VELOCE_JOB_ID"@.len() == 13);
    assert("VELOCE_RANK"@.len() == 11);
    assert("VELOCE_SIZE"@.len() == 11);
    assert("VELOCE_SECRET"@.len() == 13);
    assert("VELOCE_CONTROLLER_URL"@.len() == 21);
    assert("VELOCE_CA_CERT"@.len() == 14);
    assert("VELOCE_FILESERVER_URL"@.len() == 21);
    assert("VELOCE_FILESERVER_KEY"@.len() == 21);
    assert("PMIX_SERVER_URI"@.len() == 15);
    assert("PMIX_NAMESPACE"@.len() == 14);
    assert("PMIX_RANK"@.len() == 9);
    assert("APPTAINERENV_PMIX_SERVER_URI"@.len() == 28);
    assert("APPTAINERENV_PMIX_NAMESPACE"@.len() == 27);
    assert("APPTAINERENV_PMIX_RANK"@.len() == 22);
    assert("APPTAINERENV_VELOCE_VNC_PORT"@.len() == 28);
    assert("VELOCE_JOB_ID"@[7] != "VELOCE_SECRET"@[7]);
    assert("VELOCE_RANK"@[7] != "VELOCE_SIZE"@[7]);
    assert("VELOCE_CONTROLLER_URL"@[7] != "VELOCE_FILESERVER_URL"@[7]);
    assert("VELOCE_CONTROLLER_URL"@[7] != "VELOCE_FILESERVER_KEY"@[7]);
    assert("VELOCE_CA_CERT"@[0] != "PMIX_NAMESPACE"@[0]);
    assert("VELOCE_FILESERVER_URL"@[18] != "VELOCE_FILESERVER_KEY"@[18]);
    assert("APPTAINERENV_PMIX_SERVER_URI"@[13] != "APPTAINERENV_VELOCE_VNC_PORT"@[13]);
    let name = "APPTAINERENV_VELOCE_VNC_PORT"@;
    let none = Map::<Seq<char>, Seq<char>>::empty();
    let e0 = match o.vnc_port {
        Some(port) => none.insert(name, decimal(port as nat)),
        None => none,
    };
    let first = o.pmix_vars(e0, vars);
    let e1 = overlaid(first, pair_texts(o.host_env@));
    let e2 = e1.union_prefer_right(vars);
    law_other_names_stay(first, pair_texts(o.host_env@), name);
    law_other_names_stay(e2, o.image_vars(), name);
}

/// A job is pointed to the PMIx server exactly where the worker offers it, the server has a socket,
/// the job asks for it, and the job runs on one node. It then learns its rank and the name under
/// which the server knows it; in a container, under the names that reach its inside.
pub proof fn law_jobs_that_ask_are_pointed_to_pmix(
    o: JobLaunch,
    base: Map<Seq<char>, Seq<char>>,
    vars: Map<Seq<char>, Seq<char>>,
)
    ensures
        !(o.pmix && o.pmix_socket is Some && vars.contains_key("VELOCE_USE_PMIX"@)
            && vars["VELOCE_USE_PMIX"@] == "1"@ && o.node_list@.len() <= 1) ==> o.pmix_vars(
            base,
            vars,
        ) == base,
        o.pmix && o.pmix_socket is Some && vars.contains_key("VELOCE_USE_PMIX"@)
            && vars["VELOCE_USE_PMIX"@] == "1"@ && o.node_list@.len() <= 1 ==> {
            let e = o.pmix_vars(base, vars);
            let outside = seq!["PMIX_SERVER_URI"@, "PMIX_NAMESPACE"@, "PMIX_RANK"@];
            let inside = seq![
                "APPTAINERENV_PMIX_SERVER_URI"@,
                "APPTAINERENV_PMIX_NAMESPACE"@,
                "APPTAINERENV_PMIX_RANK"@,
            ];
            let names = if o.image is None {
                outside
            } else {
                inside
            };
            &&& e.contains_key(names[0]) && e[names[0]] == e[names[1]] + ":unix-socket="@
                + o.pmix_socket->0@
            &&& e.contains_key(names[1]) && e[names[1]] == "pmix-job-"@ + decimal(
                o.job_id as nat,
            )
            &&& e.contains_key(names[2]) && e[names[2]] == decimal(
                rank_in(vars, o.node_list@, o.worker_id@) as nat,
            )
            &&& forall|name: Seq<char>|
                base.contains_key(name) && name != names[0] && name != names[1] && name != names[2]
                    ==> #[trigger] e.contains_key(name) && e[name] == base[name]
        },
{
    reveal_strlit("PMIX_SERVER_URI");
    reveal_strlit("PMIX_NAMESPACE");
    reveal_strlit("PMIX_RANK");
    reveal_strlit("APPTAINERENV_PMIX_SERVER_URI");
    reveal_strlit("APPTAINERENV_PMIX_NAMESPACE");
    reveal_strlit("APPTAINERENV_PMIX_RANK");
    assert("PMIX_SERVER_URI"@.len() == 15);
    assert("PMIX_NAMESPACE"@.len() == 14);
    assert("PMIX_RANK"@.len() == 9);
    assert("APPTAINERENV_PMIX_SERVER_URI"@.len() == 28);
    assert("APPTAINERENV_PMIX_NAMESPACE"@.len() == 27);
    assert("APPTAINERENV_PMIX_RANK"@.len() == 22);
}

/// A job without a container runs the command that it was given; one with a container runs it
/// through a shell.
pub proof fn law_jobs_without_a_container_run_their_command(
    o: JobLaunch,
    binary: Seq<char>,
    args: Seq<Seq<char>>,
    vars: Map<Seq<char>, Seq<char>>,
)
    ensures
        o.image is None ==> o.command(binary, args, vars) == (binary, args),
        o.image is Some ==> o.command(binary, args, vars).0 == "sh"@ && o.command(
            binary,
            args,
            vars,
        ).1.len() == 2 && o.command(binary, args, vars).1[0] == "-c"@,
{
}

/// The processes of a step find each other: they are told the step, how many they are, and where to
/// ask; everything else of the step's variables stays.
pub proof fn law_steps_are_told_where_to_meet(
    base: Map<Seq<char>, Seq<char>>,
    step_id: u32,
    pmi_port: u16,
    total_ranks: u32,
    name: Seq<char>,
)
    ensures
        ({
            let e = step_env(base, step_id, pmi_port, total_ranks);
            &&& e["VELOCE_STEP_ID"@] == decimal(step_id as nat)
            &&& e["PMI_SIZE"@] == decimal(total_ranks as nat)
            &&& e["PMI_PORT"@] == "127.0.0.1:"@ + decimal(pmi_port as nat)
            &&& e["PMI2_PORT"@] == e["PMI_PORT"@]
            &&& e["PMI_VERSION"@] == "2"@
            &&& e["PMI_SUBVERSION"@] == "0"@
            &&& base.contains_key(name) && name != "VELOCE_STEP_ID"@ && name != "PMI_SIZE"@ && name
                != "PMI_PORT"@ && name != "PMI2_PORT"@ && name != "PMI_VERSION"@ && name
                != "PMI_SUBVERSION"@ ==> e.contains_key(name) && e[name] == base[name]
        }),
{
    reveal_strlit("VELOCE_STEP_ID");
    reveal_strlit("PMI_PORT");
    reveal_strlit("PMI_SIZE");
    reveal_strlit("PMI2_PORT");
    reveal_strlit("PMI_VERSION");
    reveal_strlit("PMI_SUBVERSION");
    assert("VELOCE_STEP_ID"@.len() == 14);
    assert("PMI_PORT"@.len() == 8);
    assert("PMI_SIZE"@.len() == 8);
    assert("PMI2_PORT"@.len() == 9);
    assert("PMI_VERSION"@.len() == 11);
    assert("PMI_SUBVERSION"@.len() == 14);
    assert("VELOCE_STEP_ID"@[0] != "PMI_SUBVERSION"@[0]);
    assert("PMI_PORT"@[4] != "PMI_SIZE"@[4]);
}

/// Every rank of a step is told its own number and the number of ranks, and what the worker vouches
/// for; the command may set its own variables, but not those that the worker vouches for.
pub proof fn law_ranks_learn_their_number(
    o: StepLaunch,
    vars: Map<Seq<char>, Seq<char>>,
    rank: u32,
    set: Map<Seq<char>, Seq<char>>,
)
    ensures
        ({
            let e = o.env(vars, rank, set);
            &&& e["VELOCE_JOB_ID"@] == decimal(o.job_id as nat)
            &&& e["VELOCE_STEP_ID"@] == decimal(o.step_id as nat)
            &&& e["VELOCE_SECRET"@] == o.secret@
            &&& e["VELOCE_CONTROLLER_URL"@] == o.controller_url@
            &&& e["VELOCE_CA_CERT"@] == "/app/certs/ca.pem"@
            &&& e["VELOCE_FILESERVER_URL"@] == o.fileserver_url@
            &&& e["VELOCE_FILESERVER_KEY"@] == o.fileserver_key@
            &&& !set.contains_key("PMI_ID"@) ==> e["PMI_ID"@] == decimal(rank as nat)
            &&& !set.contains_key("PMI_RANK"@) ==> e["PMI_RANK"@] == decimal(rank as nat)
            &&& !set.contains_key("VELOCE_RANK"@) ==> e["VELOCE_RANK"@] == decimal(rank as nat)
            &&& !set.contains_key("VELOCE_SIZE"@) ==> e["VELOCE_SIZE"@] == decimal(
                o.total_ranks as nat,
            )
        }),
{
    reveal_strlit("VELOCE_JOB_ID");
    reveal_strlit("VELOCE_STEP_ID");
    reveal_strlit("VELOCE_SECRET");
    reveal_strlit("VELOCE_CONTROLLER_URL");
    reveal_strlit("VELOCE_CA_CERT");
    reveal_strlit("VELOCE_FILESERVER_URL");
    reveal_strlit("VELOCE_FILESERVER_KEY");
    reveal_strlit("PMI_ID");
    reveal_strlit("PMI_RANK");
    reveal_strlit("VELOCE_RANK");
    reveal_strlit("VELOCE_SIZE");
    assert("VELOCE_JOB_ID"@.len() == 13);
    assert("VELOCE_STEP_ID"@.len() == 14);
    assert("VELOCE_SECRET"@.len() == 13);
    assert("VELOCE_CONTROLLER_URL"@.len() == 21);
    assert("VELOCE_CA_CERT"@.len() == 14);
    assert("VELOCE_FILESERVER_URL"@.len() == 21);
    assert("VELOCE_FILESERVER_KEY"@.len() == 21);
    assert("PMI_ID"@.len() == 6);
    assert("PMI_RANK"@.len() == 8);
    assert("VELOCE_RANK"@.len() == 11);
    assert("VELOCE_SIZE"@.len() == 11);
    assert("VELOCE_JOB_ID"@[7] != "VELOCE_SECRET"@[7]);
    assert("VELOCE_STEP_ID"@[7] != "VELOCE_CA_CERT"@[7]);
    assert("VELOCE_CONTROLLER_URL"@[7] != "VELOCE_FILESERVER_URL"@[7]);
    assert("VELOCE_CONTROLLER_URL"@[7] != "VELOCE_FILESERVER_KEY"@[7]);
    assert("VELOCE_FILESERVER_URL"@[18] != "VELOCE_FILESERVER_KEY"@[18]);
    assert("VELOCE_RANK"@[7] != "VELOCE_SIZE"@[7]);
}

/// Of the other variables of a rank, what its command sets goes before the step's, and that before
/// the host's.
pub proof fn law_commands_go_before_steps_before_hosts(
    o: StepLaunch,
    vars: Map<Seq<char>, Seq<char>>,
    rank: u32,
    set: Map<Seq<char>, Seq<char>>,
    name: Seq<char>,
    i: int,
)
    requires
        !vouched_for(name) && name != "VELOCE_STEP_ID"@ && name != "PMI_ID"@ && name != "PMI_RANK"@,
    ensures
        set.contains_key(name) ==> o.env(vars, rank, set).contains_key(name) && o.env(
            vars,
            rank,
            set,
        )[name] == set[name],
        !set.contains_key(name) && vars.contains_key(name) ==> o.env(
            vars,
            rank,
            set,
        ).contains_key(name) && o.env(vars, rank, set)[name] == vars[name],
        !set.contains_key(name) && !vars.contains_key(name) && sets_last(
            pair_texts(o.host_env@),
            i,
        ) && o.host_env@[i].0@ == name ==> o.env(vars, rank, set).contains_key(name) && o.env(
            vars,
            rank,
            set,
        )[name] == o.host_env@[i].1@,
{
    let host = pair_texts(o.host_env@);
    if sets_last(host, i) {
        law_last_value_prevails(Map::empty(), host, i);
    }
}

/// In its container a job runs its own command, in its own directory and from its own image; where it
/// uses PMIx, the directory of the socket is visible.
pub proof fn law_containers_run_the_command_of_the_job(
    o: JobLaunch,
    binary: Seq<char>,
    args: Seq<Seq<char>>,
    vars: Map<Seq<char>, Seq<char>>,
)
    requires
        o.image is Some,
        o.image->0.asset.manifest.execution.launch_wrapper is None,
        binary.len() > 0 && !is_space(binary.last()),
        shell_join_of(args).len() > 0 && !is_space(shell_join_of(args).last()),
    ensures
        ({
            let image = o.image->0;
            let inside = image.asset.manifest.file_handling.working_dir@;
            let line = o.command(binary, args, vars).1[1];
            &&& has_text(
                line,
                "--pid --ipc --uts --hostname veloce-job-"@ + decimal(o.job_id as nat) + " "@,
            )
            &&& has_text(
                line,
                "--bind "@ + o.working_directory@ + ":"@ + inside + " "@ + "--pwd "@ + inside
                    + " "@,
            )
            &&& has_suffix(
                line,
                image.image_path@ + " "@ + binary + seq![' '] + shell_join_of(args),
            )
            &&& o.with_pmix(vars) ==> has_text(
                line,
                "--bind "@ + "/tmp/pmix.veloce"@ + ":"@ + "/tmp/pmix.veloce"@ + " "@,
            )
        }),
{
    let i = o.image->0;
    let r = ApptainerRunner {
        manifest: &i.asset.manifest,
        job_scratch: o.working_directory,
        image_path: i.image_path,
    };
    let dir = if o.with_pmix(vars) {
        Some(SOCKET_DIR)
    } else {
        None
    };
    let all = shell_join_of(args);
    let part = r.container_part(binary, o.job_id, dir);
    let line = o.command(binary, args, vars).1[1];
    law_containers_run_the_program(r, all, binary, o.job_id, dir);
    law_containers_see_the_jobs_directory(r, binary, o.job_id, dir);
    assert(line == part + binary + seq![' '] + all);
    let rest = binary + seq![' '] + all;
    assert(line =~= part + rest);
    let inside = i.asset.manifest.file_handling.working_dir@;
    lemma_still_holds(
        part,
        "--pid --ipc --uts --hostname veloce-job-"@ + decimal(o.job_id as nat) + " "@,
        rest,
    );
    lemma_still_holds(
        part,
        "--bind "@ + o.working_directory@ + ":"@ + inside + " "@ + "--pwd "@ + inside + " "@,
        rest,
    );
    if o.with_pmix(vars) {
        lemma_still_holds(
            part,
            "--bind "@ + "/tmp/pmix.veloce"@ + ":"@ + "/tmp/pmix.veloce"@ + " "@,
            rest,
        );
    }
    let img = i.image_path@ + " "@;
    let front = part.take(part.len() - img.len());
    assert(part.subrange(part.len() - img.len(), part.len() as int) =~= img);
    assert(part =~= front + img);
    let end = i.image_path@ + " "@ + binary + seq![' '] + all;
    assert(line =~= front + end);
    lemma_ends_with(front, end);
}

} // verus!
