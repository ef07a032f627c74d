//! The command line that starts a job inside a container.

use vstd::prelude::*;

use crate::assets::ContainerAsset;
use crate::assets::SolverManifest;
use crate::envs::pair_texts;
use crate::numbers::decimal;
use crate::numbers::decimal_u64;
use crate::paths::parent;
use crate::paths::parent_of;
use crate::pieces::replace;
use crate::pieces::replaced;
use crate::text::ends_with;
use crate::text::has_suffix;
use crate::text::has_text;
use crate::text::is_space;
use crate::text::occurs_at;
use crate::text::str_eq;
use crate::text::texts;
use crate::text::trim;
use crate::text::trimmed;

verus! {

/// A container that is to run a job.
pub struct ApptainerRunner<'a> {
    pub manifest: &'a SolverManifest,
    pub job_scratch: String,
    pub image_path: String,
}

/// What starts the container: the manifest's own wrapper, or the usual command.
pub open spec fn launcher(wrapper: Option<String>) -> Seq<char> {
    match wrapper {
        Some(w) => if trimmed(w@).len() == 0 {
            "apptainer exec "@
        } else {
            trimmed(w@) + " "@
        },
        None => "apptainer exec "@,
    }
}

/// What makes a directory visible inside under its own name.
pub open spec fn bind_same(dir: Seq<char>) -> Seq<char> {
    "--bind "@ + dir + ":"@ + dir + " "@
}

/// What makes the directory of the program visible, if it is one to speak of.
pub open spec fn bind_parent(input_file: Seq<char>) -> Seq<char> {
    match parent_of(input_file) {
        Some(p) => if p.len() == 0 || p == "/"@ {
            Seq::empty()
        } else {
            bind_same(p)
        },
        None => Seq::empty(),
    }
}

impl<'a> ApptainerRunner<'a> {
    pub fn new(asset: &'a ContainerAsset, job_scratch: &str, image_path: &str) -> (r: Self)
        ensures
            *r.manifest == asset.manifest,
            r.job_scratch@ == job_scratch@,
            r.image_path@ == image_path@,
    {
        ApptainerRunner {
            manifest: &asset.manifest,
            job_scratch: job_scratch.to_owned(),
            image_path: image_path.to_owned(),
        }
    }

    /// The part of the command line that comes before the program: isolation, directories and
    /// the image.
    pub open spec fn container_part(
        &self,
        input_file: Seq<char>,
        job_id: u64,
        pmix_socket_dir: Option<&str>,
    ) -> Seq<char> {
        let wd = self.manifest.file_handling.working_dir@;
        launcher(self.manifest.execution.launch_wrapper)
            + "--pid --ipc --uts --hostname veloce-job-"@ + decimal(job_id as nat) + " "@
            + "--bind "@ + self.job_scratch@ + ":"@ + wd + " "@ + "--pwd "@ + wd + " "@ + (
        match pmix_socket_dir {
            Some(dir) => bind_same(dir@),
            None => Seq::empty(),
        }) + bind_parent(input_file) + self.image_path@ + " "@
    }

    /// The whole command line.
    pub open spec fn command_line(
        &self,
        custom_args: Seq<char>,
        input_file: Seq<char>,
        job_id: u64,
        pmix_socket_dir: Option<&str>,
    ) -> Seq<char> {
        let cmd = self.container_part(input_file, job_id, pmix_socket_dir) + input_file;
        trimmed(
            if custom_args.len() == 0 {
                cmd
            } else if has_suffix(cmd, " "@) {
                cmd + custom_args
            } else {
                cmd + " "@ + custom_args
            },
        )
    }

    /// The program and the arguments that run `input_file` with `custom_args` in the container.
    pub fn build_command(
        &self,
        custom_args: &str,
        input_file: &str,
        job_id: u64,
        pmix_socket_dir: Option<&str>,
    ) -> (r: Result<(String, Vec<String>), String>)
        ensures
            r matches Ok(c) && c.0@ == "sh"@ && texts(c.1@) == seq![
                "-c"@,
                self.command_line(custom_args@, input_file@, job_id, pmix_socket_dir),
            ],
    {
        let mut cmd: String = match &self.manifest.execution.launch_wrapper {
            Some(w) => {
                let mut t: String = trim(w);
                if t.as_str().is_empty() {
                    "apptainer exec ".to_owned()
                } else {
                    t.append(" ");
                    t
                }
            },
            None => "apptainer exec ".to_owned(),
        };
        cmd.append("--pid --ipc --uts --hostname veloce-job-");
        cmd.append(&decimal_u64(job_id));
        cmd.append(" ");
        let wd: &String = &self.manifest.file_handling.working_dir;
        cmd.append("--bind ");
        cmd.append(&self.job_scratch);
        cmd.append(":");
        cmd.append(wd);
        cmd.append(" ");
        cmd.append("--pwd ");
        cmd.append(wd);
        cmd.append(" ");
        let ghost so_far = cmd@;
        if let Some(dir) = pmix_socket_dir {
            cmd.append("--bind ");
            cmd.append(dir);
            cmd.append(":");
            cmd.append(dir);
            cmd.append(" ");
            assert(cmd@ =~= so_far + bind_same(dir@));
        }
        let ghost so_far = cmd@;
        if let Some(p) = parent(input_file) {
            if !p.as_str().is_empty() && !str_eq(&p, "/") {
                cmd.append("--bind ");
                cmd.append(&p);
                cmd.append(":");
                cmd.append(&p);
                cmd.append(" ");
                assert(cmd@ =~= so_far + bind_same(p@));
            }
        }
        assert(cmd@ =~= so_far + bind_parent(input_file@));
        cmd.append(&self.image_path);
        cmd.append(" ");
        assert(cmd@ =~= self.container_part(input_file@, job_id, pmix_socket_dir));
        cmd.append(input_file);
        if !custom_args.is_empty() {
            if !ends_with(&cmd, " ") {
                cmd.append(" ");
            }
            cmd.append(custom_args);
        }
        let mut args: Vec<String> = Vec::new();
        args.push("-c".to_owned());
        args.push(trim(&cmd));
        assert(texts(args@) =~= seq![
            "-c"@,
            self.command_line(custom_args@, input_file@, job_id, pmix_socket_dir),
        ]);
        Ok(("sh".to_owned(), args))
    }

    /// The variables that the container sets for what runs inside, under the names by which
    /// they are handed in.
    pub fn build_environment_vars(&self) -> (r: Vec<(String, String)>)
        ensures
            pair_texts(r@) == container_vars(
                pair_texts(self.manifest.execution.environment_vars@),
            ),
    {
        proof {
            reveal_strlit("{{license_server}}");
        }
        let vars: &Vec<(String, String)> = &self.manifest.execution.environment_vars;
        let ghost all = container_vars(pair_texts(vars@));
        let mut r: Vec<(String, String)> = Vec::new();
        let mut i: usize = 0;
        assert(pair_texts(r@) =~= all.take(0));
        while i < vars.len()
            invariant
                i <= vars@.len(),
                all == container_vars(pair_texts(vars@)),
                "{{license_server}}"@.len() > 0,
                pair_texts(r@) == all.take(i as int),
            decreases vars@.len() - i,
        {
            let mut name: String = "APPTAINERENV_".to_owned();
            name.append(&vars[i].0);
            let value: String = replace(&vars[i].1, "{{license_server}}", "1055@licserver");
            let ghost before = r@;
            let ghost pair = (name@, value@);
            r.push((name, value));
            assert(pair_texts(r@) =~= pair_texts(before).push(pair));
            assert(all[i as int] == pair);
            i = i + 1;
        }
        assert(all.take(all.len() as int) =~= all);
        r
    }
}

/// The variables of a manifest as they are handed to the container.
pub open spec fn container_vars(vars: Seq<(Seq<char>, Seq<char>)>) -> Seq<(Seq<char>, Seq<char>)> {
    Seq::new(
        vars.len(),
        |i: int|
            (
                "APPTAINERENV_"@ + vars[i].0,
                replaced(vars[i].1, "{{license_server}}"@, "1055@licserver"@),
            ),
    )
}

/// What is put together from pieces holds each of them.
proof fn lemma_holds_each(a: Seq<char>, b: Seq<char>, c: Seq<char>, d: Seq<char>, e: Seq<char>)
    ensures
        has_text(a + b + c + d + e, b),
        has_text(a + b + c + d + e, c),
        has_text(a + b + c + d + e, d),
        has_suffix(a + b + c + d + e, e),
{
    let all = a + b + c + d + e;
    assert(all =~= a + b + (c + d + e));
    crate::text::lemma_holds(a, b, c + d + e);
    assert(all =~= (a + b) + c + (d + e));
    crate::text::lemma_holds(a + b, c, d + e);
    crate::text::lemma_holds(a + b + c, d, e);
    crate::text::lemma_ends_with(a + b + c + d, e);
}

/// The parts of what comes before the program, one by one.
proof fn lemma_container_parts(
    r: ApptainerRunner,
    input_file: Seq<char>,
    job_id: u64,
    pmix_socket_dir: Option<&str>,
)
    ensures
        ({
            let wd = r.manifest.file_handling.working_dir@;
            let host = "--pid --ipc --uts --hostname veloce-job-"@ + decimal(job_id as nat) + " "@;
            let dirs = "--bind "@ + r.job_scratch@ + ":"@ + wd + " "@ + "--pwd "@ + wd + " "@;
            let more = match pmix_socket_dir {
                Some(dir) => bind_same(dir@),
                None => Seq::empty(),
            };
            r.container_part(input_file, job_id, pmix_socket_dir) == launcher(
                r.manifest.execution.launch_wrapper,
            ) + host + dirs + (more + bind_parent(input_file)) + (r.image_path@ + " "@)
        }),
{
    let wd = r.manifest.file_handling.working_dir@;
    let l = launcher(r.manifest.execution.launch_wrapper);
    let h1 = "--pid --ipc --uts --hostname veloce-job-"@;
    let n = decimal(job_id as nat);
    let more = match pmix_socket_dir {
        Some(dir) => bind_same(dir@),
        None => Seq::empty(),
    };
    let b = bind_parent(input_file);
    let img = r.image_path@;
    let s1 = l + h1 + n + " "@;
    assert(s1 =~= l + (h1 + n + " "@));
    let s2 = s1 + "--bind "@ + r.job_scratch@ + ":"@ + wd;
    assert(s2 =~= s1 + ("--bind "@ + r.job_scratch@ + ":"@ + wd));
    let d1 = "--bind "@ + r.job_scratch@ + ":"@ + wd;
    let s3 = s2 + " "@ + "--pwd "@ + wd + " "@;
    assert(s3 =~= s1 + (d1 + " "@ + "--pwd "@ + wd + " "@));
    assert(s3 + more + b =~= s3 + (more + b));
    assert(s3 + more + b + img + " "@ =~= s3 + (more + b) + (img + " "@));
}

/// The command that starts a container isolates it, names its host after the job, makes the job's
/// directory visible as the container's working directory, starts there, and ends with the image.
/// The directory of the PMIx socket is visible where it is given, and that of the program where it
/// is one to speak of.
pub proof fn law_containers_see_the_jobs_directory(
    r: ApptainerRunner,
    input_file: Seq<char>,
    job_id: u64,
    pmix_socket_dir: Option<&str>,
)
    ensures
        ({
            let part = r.container_part(input_file, job_id, pmix_socket_dir);
            let wd = r.manifest.file_handling.working_dir@;
            &&& has_text(
                part,
                "--pid --ipc --uts --hostname veloce-job-"@ + decimal(job_id as nat) + " "@,
            )
            &&& has_text(
                part,
                "--bind "@ + r.job_scratch@ + ":"@ + wd + " "@ + "--pwd "@ + wd + " "@,
            )
            &&& has_suffix(part, r.image_path@ + " "@)
            &&& pmix_socket_dir is Some ==> has_text(
                part,
                "--bind "@ + pmix_socket_dir->0@ + ":"@ + pmix_socket_dir->0@ + " "@,
            )
            &&& parent_of(input_file) is Some && parent_of(input_file)->0.len() > 0 && parent_of(
                input_file,
            )->0 != "/"@ ==> has_text(
                part,
                "--bind "@ + parent_of(input_file)->0 + ":"@ + parent_of(input_file)->0 + " "@,
            )
        }),
{
    lemma_container_parts(r, input_file, job_id, pmix_socket_dir);
    let wd = r.manifest.file_handling.working_dir@;
    let l = launcher(r.manifest.execution.launch_wrapper);
    let host = "--pid --ipc --uts --hostname veloce-job-"@ + decimal(job_id as nat) + " "@;
    let dirs = "--bind "@ + r.job_scratch@ + ":"@ + wd + " "@ + "--pwd "@ + wd + " "@;
    let more = match pmix_socket_dir {
        Some(dir) => bind_same(dir@),
        None => Seq::empty(),
    };
    let b = bind_parent(input_file);
    let img = r.image_path@ + " "@;
    lemma_holds_each(l, host, dirs, more + b, img);
    let part = r.container_part(input_file, job_id, pmix_socket_dir);
    let front = l + host + dirs;
    assert(part =~= front + more + (b + img));
    crate::text::lemma_holds(front, more, b + img);
    assert(part =~= (front + more) + b + img);
    crate::text::lemma_holds(front + more, b, img);
}

/// A container is started by the wrapper of its manifest, and by the usual command where that names
/// none.
pub proof fn law_wrappers_start_containers(wrapper: Option<String>)
    ensures
        wrapper is None ==> launcher(wrapper) == "apptainer exec "@,
        wrapper is Some && trimmed(wrapper->0@).len() == 0 ==> launcher(wrapper)
            == "apptainer exec "@,
        wrapper is Some && trimmed(wrapper->0@).len() > 0 ==> launcher(wrapper).drop_last()
            == trimmed(wrapper->0@) && launcher(wrapper).last() == ' ',
{
    reveal_strlit(" ");
    if let Some(w) = wrapper {
        assert((trimmed(w@) + " "@).drop_last() =~= trimmed(w@));
    }
}

/// Inside its container a job runs its program with its arguments.
pub proof fn law_containers_run_the_program(
    r: ApptainerRunner,
    custom_args: Seq<char>,
    input_file: Seq<char>,
    job_id: u64,
    pmix_socket_dir: Option<&str>,
)
    requires
        r.manifest.execution.launch_wrapper is None,
        input_file.len() > 0 && !is_space(input_file.last()),
        custom_args.len() > 0 ==> !is_space(custom_args.last()),
    ensures
        ({
            let part = r.container_part(input_file, job_id, pmix_socket_dir);
            let line = r.command_line(custom_args, input_file, job_id, pmix_socket_dir);
            &&& custom_args.len() == 0 ==> line == part + input_file
            &&& custom_args.len() > 0 ==> line == part + input_file + seq![' '] + custom_args
        }),
{
    reveal_strlit(" ");
    reveal_strlit("apptainer exec ");
    let part = r.container_part(input_file, job_id, pmix_socket_dir);
    assert(part[0] == 'a');
    assert(!is_space('a'));
    let cmd = part + input_file;
    assert(cmd.last() == input_file.last());
    if has_suffix(cmd, " "@) {
        assert(cmd.subrange(cmd.len() - 1, cmd.len() as int)[0] == ' ');
        assert(cmd[cmd.len() - 1] == ' ');
    }
    assert(" "@ =~= seq![' ']);
    let line = if custom_args.len() == 0 {
        cmd
    } else {
        cmd + " "@ + custom_args
    };
    assert(line[0] == 'a');
    crate::text::lemma_trimmed_stays(line);
}

/// Every variable of a manifest reaches the inside of its container under its name; its value is
/// handed on as it is, unless it stands for the license server.
pub proof fn law_variables_reach_the_container(vars: Seq<(Seq<char>, Seq<char>)>, i: int)
    requires
        0 <= i < vars.len(),
    ensures
        container_vars(vars).len() == vars.len(),
        container_vars(vars)[i].0 == "APPTAINERENV_"@ + vars[i].0,
        (forall|k: int| !#[trigger] occurs_at(vars[i].1, "{{license_server}}"@, k))
            ==> container_vars(vars)[i].1 == vars[i].1,
        vars[i].1 == "{{license_server}}"@ ==> container_vars(vars)[i].1 == "1055@licserver"@,
{
    reveal_strlit("{{license_server}}");
    let from = "{{license_server}}"@;
    let to = "1055@licserver"@;
    if forall|k: int| !#[trigger] occurs_at(vars[i].1, from, k) {
        crate::pieces::law_nothing_to_replace(vars[i].1, from, to);
    }
    if vars[i].1 == from {
        assert(from.subrange(0, from.len() as int) =~= from);
        assert(occurs_at(from, from, 0));
        crate::pieces::law_first_is_replaced(from, from, to, 0);
        let none = from.skip(from.len() as int);
        assert(none =~= Seq::<char>::empty());
        crate::pieces::law_nothing_to_replace(none, from, to);
        assert(from.take(0) + to + none =~= to);
    }
}

} // verus!
