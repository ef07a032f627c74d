//! The commands of a controller: what each one changes in what the worker keeps track of, and
//! what the worker does about it.

use vstd::prelude::*;

use crate::connection::drop_job;
use crate::connection::has_job;
use crate::connection::lemma_without_job_contains;
use crate::connection::log_command;
use crate::connection::log_command_of;
use crate::connection::missing_dir_error;
use crate::connection::reachable_url;
use crate::connection::restart_waits;
use crate::connection::steps_of;
use crate::connection::steps_of_others;
use crate::connection::system_log;
use crate::connection::system_log_of;
use crate::connection::unknown_log;
use crate::connection::without_job;
use crate::connection::without_step;
use crate::connection::StopPlan;
use crate::connection::SystemLog;
use crate::connection::WorkerState;
use crate::job_runner::log_name;
use crate::job_runner::log_path;
use crate::job_runner::KillSignal;
use crate::numbers::decimal;
use crate::numbers::is_digit;
use crate::numbers::law_read_undoes_decimal;
use crate::numbers::lemma_decimal_digits;
use crate::numbers::parsed_u64;
use crate::paths::absolute;
use crate::paths::path_join;
use crate::pieces::law_first_is_replaced;
use crate::pieces::law_first_piece;
use crate::pieces::law_nothing_to_replace;
use crate::pieces::replaced;
use crate::pieces::split_on;
use crate::records::wd_views;
use crate::text::has_prefix;
use crate::text::has_suffix;
use crate::text::lemma_ends_with;
use crate::text::occurs_at;
use crate::text::texts;

verus! {

/// What a worker is set up with.
pub struct Setting {
    pub worker_id: String,
    /// The address through which it reaches the controller.
    pub addr: String,
    pub run_as_worker_user: bool,
    pub temp_dir: String,
}

/// What comes from the controller, or from the worker's own clock and signals.
#[allow(inconsistent_fields)]
pub enum Command {
    RunJob { job_id: u64, working_directory: String, controller_url: String },
    RunStep { job_id: u64, step_id: u32, working_directory: String, controller_url: String },
    /// A message for the processes of a step.
    StepMessage { job_id: u64, step_id: u32 },
    TerminateJob { job_id: u64 },
    PreemptJob { job_id: u64 },
    GetComponentLogs { lines: usize },
    GetSystemLogs { source: String, lines: usize },
    GetLogs { job_id: u64, errors: bool, working_directory: Option<String> },
    ListJobOutputFiles { job_id: u64, working_directory: Option<String> },
    GetJobOutputFileChunk { job_id: u64, working_directory: Option<String> },
    Restart { component: String, delay_ms: u64 },
    StartTerminalSession { job_id: u64 },
    TerminalInput { session_id: u64 },
    TerminalResize { session_id: u64 },
    StopTerminalSession { session_id: u64 },
    StartVncSession { job_id: u64 },
    VncInput { session_id: u64 },
    StopVncSession { session_id: u64 },
    /// The wish to take no more jobs has changed.
    DrainChanged { draining: bool },
    /// Some time has gone by.
    Tick { draining: bool },
}

/// What the worker does.
#[allow(inconsistent_fields)]
pub enum Action {
    Nothing,
    StartJob { working_directory: String, controller_url: String },
    StartStep { working_directory: String, controller_url: String },
    /// Pass the message on to the step's processes.
    Deliver,
    /// Stop the job, if it can be told to, and the steps.
    Stop { signal: Option<KillSignal>, steps: Vec<u32> },
    SendComponentLog { lines: usize },
    RunLogCommand { log: SystemLog, program: String, args: Vec<String> },
    SendSystemLog { text: String },
    ReadLog { path: String },
    SendLog { text: String },
    ListOutputs { dir: Option<String> },
    ReadOutput { dir: String },
    SendError { text: String },
    /// Tell the controller, wait for both times, stop all jobs, and restart.
    Restart { grace_ms: u64, delay_ms: u64 },
    OpenTerminal { dir: String, pid: Option<u32> },
    /// Pass the input or the size on to the shell.
    ToTerminal,
    CloseTerminal,
    OpenDesktop { port: u16 },
    RefuseDesktop { reason: String },
    ToDesktop,
    CloseDesktop,
    TellDraining,
    Leave,
}

/// What an action says.
#[allow(inconsistent_fields)]
pub ghost enum ActionView {
    Nothing,
    StartJob { working_directory: Seq<char>, controller_url: Seq<char> },
    StartStep { working_directory: Seq<char>, controller_url: Seq<char> },
    Deliver,
    Stop { signal: Option<KillSignal>, steps: Seq<u32> },
    SendComponentLog { lines: nat },
    RunLogCommand { log: SystemLog, program: Seq<char>, args: Seq<Seq<char>> },
    SendSystemLog { text: Seq<char> },
    ReadLog { path: Seq<char> },
    SendLog { text: Seq<char> },
    ListOutputs { dir: Option<Seq<char>> },
    ReadOutput { dir: Seq<char> },
    SendError { text: Seq<char> },
    Restart { grace_ms: nat, delay_ms: nat },
    OpenTerminal { dir: Seq<char>, pid: Option<u32> },
    ToTerminal,
    CloseTerminal,
    OpenDesktop { port: u16 },
    RefuseDesktop { reason: Seq<char> },
    ToDesktop,
    CloseDesktop,
    TellDraining,
    Leave,
}

impl View for Action {
    type V = ActionView;

    open spec fn view(&self) -> ActionView {
        match *self {
            Action::Nothing => ActionView::Nothing,
            Action::StartJob { working_directory, controller_url } => ActionView::StartJob {
                working_directory: working_directory@,
                controller_url: controller_url@,
            },
            Action::StartStep { working_directory, controller_url } => ActionView::StartStep {
                working_directory: working_directory@,
                controller_url: controller_url@,
            },
            Action::Deliver => ActionView::Deliver,
            Action::Stop { signal, steps } => ActionView::Stop { signal, steps: steps@ },
            Action::SendComponentLog { lines } => ActionView::SendComponentLog {
                lines: lines as nat,
            },
            Action::RunLogCommand { log, program, args } => ActionView::RunLogCommand {
                log,
                program: program@,
                args: texts(args@),
            },
            Action::SendSystemLog { text } => ActionView::SendSystemLog { text: text@ },
            Action::ReadLog { path } => ActionView::ReadLog { path: path@ },
            Action::SendLog { text } => ActionView::SendLog { text: text@ },
            Action::ListOutputs { dir } => ActionView::ListOutputs {
                dir: match dir {
                    Some(dir) => Some(dir@),
                    None => None,
                },
            },
            Action::ReadOutput { dir } => ActionView::ReadOutput { dir: dir@ },
            Action::SendError { text } => ActionView::SendError { text: text@ },
            Action::Restart { grace_ms, delay_ms } => ActionView::Restart {
                grace_ms: grace_ms as nat,
                delay_ms: delay_ms as nat,
            },
            Action::OpenTerminal { dir, pid } => ActionView::OpenTerminal { dir: dir@, pid },
            Action::ToTerminal => ActionView::ToTerminal,
            Action::CloseTerminal => ActionView::CloseTerminal,
            Action::OpenDesktop { port } => ActionView::OpenDesktop { port },
            Action::RefuseDesktop { reason } => ActionView::RefuseDesktop { reason: reason@ },
            Action::ToDesktop => ActionView::ToDesktop,
            Action::CloseDesktop => ActionView::CloseDesktop,
            Action::TellDraining => ActionView::TellDraining,
            Action::Leave => ActionView::Leave,
        }
    }
}

/// A connected worker.
pub struct Worker {
    pub setting: Setting,
    pub state: WorkerState,
    /// The sessions with a shell that is open.
    pub terminals: Vec<u64>,
    /// The sessions with a desktop that is open.
    pub desktops: Vec<u64>,
}

/// What a worker keeps track of.
pub ghost struct WorkerView {
    pub jobs: Seq<u64>,
    pub steps: Seq<(u64, u32)>,
    pub routes: Seq<(u64, u32)>,
    pub pids: Map<u64, u32>,
    pub dirs: Map<u64, Seq<char>>,
    pub ports: Map<u64, u16>,
    pub told_draining: bool,
    pub terminals: Seq<u64>,
    pub desktops: Seq<u64>,
}

impl View for Worker {
    type V = WorkerView;

    open spec fn view(&self) -> WorkerView {
        WorkerView {
            jobs: self.state.jobs@,
            steps: self.state.steps@,
            routes: self.state.routes@,
            pids: self.state.pids@,
            dirs: wd_views(self.state.dirs@),
            ports: self.state.vnc_ports@,
            told_draining: self.state.told_draining,
            terminals: self.terminals@,
            desktops: self.desktops@,
        }
    }
}

/// The directory in which the output of a job is looked for.
pub open spec fn dir_for(w: WorkerView, job_id: u64, provided: Option<String>) -> Option<Seq<char>> {
    if w.dirs.contains_key(job_id) {
        Some(w.dirs[job_id])
    } else {
        match provided {
            Some(dir) => Some(dir@),
            None => None,
        }
    }
}

/// Where a job or a step finds the controller.
pub open spec fn url_from(url: Seq<char>, addr: Seq<char>) -> Seq<char> {
    replaced(url, "localhost"@, split_on(addr, ':')[0])
}

/// Where jobs and steps run: in the directory given, or in the one for temporary files where
/// they run as the worker's user.
pub open spec fn run_dir(s: Setting, working_directory: Seq<char>) -> Seq<char> {
    if s.run_as_worker_user {
        s.temp_dir@
    } else {
        working_directory
    }
}

/// The worker after it was told to stop a job, and whom it tells.
pub open spec fn stopping(w: WorkerView, job_id: u64, signal: KillSignal) -> (
    WorkerView,
    ActionView,
) {
    (
        WorkerView {
            jobs: without_job(w.jobs, job_id),
            steps: steps_of_others(w.steps, job_id),
            ..w
        },
        ActionView::Stop {
            signal: if w.jobs.contains(job_id) {
                Some(signal)
            } else {
                None
            },
            steps: steps_of(w.steps, job_id),
        },
    )
}

/// What a worker does about a command, and what it keeps track of from then on.
pub open spec fn reaction(w: WorkerView, s: Setting, c: Command) -> (WorkerView, ActionView) {
    match c {
        Command::RunJob { job_id, working_directory, controller_url } => {
            let dir = run_dir(s, working_directory@);
            (
                WorkerView {
                    jobs: without_job(w.jobs, job_id).push(job_id),
                    dirs: w.dirs.insert(job_id, dir),
                    ..w
                },
                ActionView::StartJob {
                    working_directory: dir,
                    controller_url: url_from(controller_url@, s.addr@),
                },
            )
        },
        Command::RunStep { job_id, step_id, working_directory, controller_url } => (
            WorkerView {
                steps: w.steps.push((job_id, step_id)),
                routes: without_step(w.routes, (job_id, step_id)).push((job_id, step_id)),
                ..w
            },
            ActionView::StartStep {
                working_directory: run_dir(s, working_directory@),
                controller_url: url_from(controller_url@, s.addr@),
            },
        ),
        Command::StepMessage { job_id, step_id } => (
            w,
            if w.routes.contains((job_id, step_id)) {
                ActionView::Deliver
            } else {
                ActionView::Nothing
            },
        ),
        Command::TerminateJob { job_id } => stopping(w, job_id, KillSignal::Cancel),
        Command::PreemptJob { job_id } => stopping(w, job_id, KillSignal::Preempt),
        Command::GetComponentLogs { lines } => (
            w,
            ActionView::SendComponentLog { lines: lines as nat },
        ),
        Command::GetSystemLogs { source, lines } => (
            w,
            match system_log_of(source@) {
                Some(log) => ActionView::RunLogCommand {
                    log,
                    program: log_command_of(log, lines as nat).0,
                    args: log_command_of(log, lines as nat).1,
                },
                None => ActionView::SendSystemLog {
                    text: "Unsupported log source: "@ + source@,
                },
            },
        ),
        Command::GetLogs { job_id, errors, working_directory } => (
            w,
            match dir_for(w, job_id, working_directory) {
                Some(dir) => ActionView::ReadLog {
                    path: path_join(dir, log_name(job_id, s.worker_id@, errors)),
                },
                None => ActionView::SendLog { text: "Job working directory not found."@ },
            },
        ),
        Command::ListJobOutputFiles { job_id, working_directory } => (
            w,
            ActionView::ListOutputs { dir: dir_for(w, job_id, working_directory) },
        ),
        Command::GetJobOutputFileChunk { job_id, working_directory } => (
            w,
            match dir_for(w, job_id, working_directory) {
                Some(dir) => ActionView::ReadOutput { dir },
                None => ActionView::SendError {
                    text: "Working directory for job "@ + decimal(job_id as nat) + " not found"@,
                },
            },
        ),
        Command::Restart { component, delay_ms } => (
            w,
            if component@ == "worker"@ {
                ActionView::Restart { grace_ms: 500, delay_ms: delay_ms as nat }
            } else {
                ActionView::Nothing
            },
        ),
        Command::StartTerminalSession { job_id } => (
            w,
            ActionView::OpenTerminal {
                dir: if w.dirs.contains_key(job_id) {
                    w.dirs[job_id]
                } else {
                    "/tmp"@
                },
                pid: if w.pids.contains_key(job_id) {
                    Some(w.pids[job_id])
                } else {
                    None
                },
            },
        ),
        Command::TerminalInput { session_id } => (
            w,
            if w.terminals.contains(session_id) {
                ActionView::ToTerminal
            } else {
                ActionView::Nothing
            },
        ),
        Command::TerminalResize { session_id } => (
            w,
            if w.terminals.contains(session_id) {
                ActionView::ToTerminal
            } else {
                ActionView::Nothing
            },
        ),
        Command::StopTerminalSession { session_id } => (
            WorkerView { terminals: without_job(w.terminals, session_id), ..w },
            if w.terminals.contains(session_id) {
                ActionView::CloseTerminal
            } else {
                ActionView::Nothing
            },
        ),
        Command::StartVncSession { job_id } => (
            w,
            if w.ports.contains_key(job_id) {
                ActionView::OpenDesktop { port: w.ports[job_id] }
            } else {
                ActionView::RefuseDesktop { reason: "VNC port not found"@ }
            },
        ),
        Command::VncInput { session_id } => (
            w,
            if w.desktops.contains(session_id) {
                ActionView::ToDesktop
            } else {
                ActionView::Nothing
            },
        ),
        Command::StopVncSession { session_id } => (
            WorkerView { desktops: without_job(w.desktops, session_id), ..w },
            if w.desktops.contains(session_id) {
                ActionView::CloseDesktop
            } else {
                ActionView::Nothing
            },
        ),
        Command::DrainChanged { draining } => (
            WorkerView { told_draining: w.told_draining || draining, ..w },
            if draining && !w.told_draining {
                ActionView::TellDraining
            } else {
                ActionView::Nothing
            },
        ),
        Command::Tick { draining } => (
            w,
            if draining && w.jobs.len() == 0 {
                ActionView::Leave
            } else {
                ActionView::Nothing
            },
        ),
    }
}

/// The worker with a session in which a shell is open.
pub open spec fn with_terminal(w: WorkerView, session_id: u64) -> WorkerView {
    WorkerView { terminals: without_job(w.terminals, session_id).push(session_id), ..w }
}

/// The worker with a session in which a desktop is open.
pub open spec fn with_desktop(w: WorkerView, session_id: u64) -> WorkerView {
    WorkerView { desktops: without_job(w.desktops, session_id).push(session_id), ..w }
}

fn when(yes: bool, action: Action) -> (r: Action)
    ensures
        r@ == if yes {
            action@
        } else {
            ActionView::Nothing
        },
{
    if yes {
        action
    } else {
        Action::Nothing
    }
}

impl Worker {
    fn stop(&mut self, job_id: u64, signal: KillSignal) -> (r: Action)
        ensures
            (final(self)@, r@) == stopping(old(self)@, job_id, signal),
            final(self).setting == old(self).setting,
    {
        let plan: StopPlan = self.state.stop_job(job_id);
        let signal: Option<KillSignal> = if plan.job {
            Some(signal)
        } else {
            None
        };
        Action::Stop { signal, steps: plan.steps }
    }

    fn read_log(&self, job_id: u64, errors: bool, provided: &Option<String>) -> (r: Action)
        ensures
            r@ == (match dir_for(self@, job_id, *provided) {
                Some(dir) => ActionView::ReadLog {
                    path: path_join(dir, log_name(job_id, self.setting.worker_id@, errors)),
                },
                None => ActionView::SendLog { text: "Job working directory not found."@ },
            }),
    {
        match self.state.output_dir(job_id, provided) {
            Some(dir) => Action::ReadLog {
                path: log_path(&dir, job_id, &self.setting.worker_id, errors),
            },
            None => Action::SendLog { text: "Job working directory not found.".to_string() },
        }
    }

    fn system_logs(source: &str, lines: usize) -> (r: Action)
        ensures
            r@ == (match system_log_of(source@) {
                Some(log) => ActionView::RunLogCommand {
                    log,
                    program: log_command_of(log, lines as nat).0,
                    args: log_command_of(log, lines as nat).1,
                },
                None => ActionView::SendSystemLog {
                    text: "Unsupported log source: "@ + source@,
                },
            }),
    {
        match system_log(source) {
            Some(log) => {
                let (program, args) = log_command(log, lines);
                Action::RunLogCommand { log, program, args }
            },
            None => Action::SendSystemLog { text: unknown_log(source) },
        }
    }

    fn open_terminal(&self, job_id: u64) -> (r: Action)
        ensures
            r@ == (ActionView::OpenTerminal {
                dir: if self@.dirs.contains_key(job_id) {
                    self@.dirs[job_id]
                } else {
                    "/tmp"@
                },
                pid: if self@.pids.contains_key(job_id) {
                    Some(self@.pids[job_id])
                } else {
                    None
                },
            }),
    {
        let pid: Option<u32> = match self.state.pids.get(&job_id) {
            Some(pid) => Some(*pid),
            None => None,
        };
        Action::OpenTerminal { dir: self.state.terminal_dir(job_id), pid }
    }

    fn open_desktop(&self, job_id: u64) -> (r: Action)
        ensures
            r@ == (if self@.ports.contains_key(job_id) {
                ActionView::OpenDesktop { port: self@.ports[job_id] }
            } else {
                ActionView::RefuseDesktop { reason: "VNC port not found"@ }
            }),
    {
        match self.state.vnc_ports.get(&job_id) {
            Some(port) => Action::OpenDesktop { port: *port },
            None => Action::RefuseDesktop { reason: "VNC port not found".to_string() },
        }
    }

    /// What the worker does about a command.
    pub fn on_command(&mut self, command: Command) -> (r: Action)
        ensures
            (final(self)@, r@) == reaction(old(self)@, old(self).setting, command),
            final(self).setting == old(self).setting,
    {
        match command {
            Command::RunJob { job_id, working_directory, controller_url } => {
                let ghost dirs = self.state.dirs@;
                let dir: String = self.state.start_job(
                    job_id,
                    &working_directory,
                    self.setting.run_as_worker_user,
                    &self.setting.temp_dir,
                );
                assert(wd_views(self.state.dirs@) =~= wd_views(dirs).insert(job_id, dir@));
                Action::StartJob {
                    working_directory: dir,
                    controller_url: reachable_url(&controller_url, &self.setting.addr),
                }
            },
            Command::RunStep { job_id, step_id, working_directory, controller_url } => {
                self.state.start_step(job_id, step_id);
                Action::StartStep {
                    working_directory: if self.setting.run_as_worker_user {
                        self.setting.temp_dir.clone()
                    } else {
                        working_directory
                    },
                    controller_url: reachable_url(&controller_url, &self.setting.addr),
                }
            },
            Command::StepMessage { job_id, step_id } => when(
                self.state.routes_to(job_id, step_id),
                Action::Deliver,
            ),
            Command::TerminateJob { job_id } => self.stop(job_id, KillSignal::Cancel),
            Command::PreemptJob { job_id } => self.stop(job_id, KillSignal::Preempt),
            Command::GetComponentLogs { lines } => Action::SendComponentLog { lines },
            Command::GetSystemLogs { source, lines } => Self::system_logs(&source, lines),
            Command::GetLogs { job_id, errors, working_directory } => self.read_log(
                job_id,
                errors,
                &working_directory,
            ),
            Command::ListJobOutputFiles { job_id, working_directory } => Action::ListOutputs {
                dir: self.state.output_dir(job_id, &working_directory),
            },
            Command::GetJobOutputFileChunk { job_id, working_directory } => {
                match self.state.output_dir(job_id, &working_directory) {
                    Some(dir) => Action::ReadOutput { dir },
                    None => Action::SendError { text: missing_dir_error(job_id) },
                }
            },
            Command::Restart { component, delay_ms } => match restart_waits(&component, delay_ms) {
                Some(waits) => Action::Restart { grace_ms: waits.0, delay_ms: waits.1 },
                None => Action::Nothing,
            },
            Command::StartTerminalSession { job_id } => self.open_terminal(job_id),
            Command::TerminalInput { session_id } => when(
                has_job(&self.terminals, session_id),
                Action::ToTerminal,
            ),
            Command::TerminalResize { session_id } => when(
                has_job(&self.terminals, session_id),
                Action::ToTerminal,
            ),
            Command::StopTerminalSession { session_id } => {
                let open: bool = has_job(&self.terminals, session_id);
                self.terminals = drop_job(&self.terminals, session_id);
                when(open, Action::CloseTerminal)
            },
            Command::StartVncSession { job_id } => self.open_desktop(job_id),
            Command::VncInput { session_id } => when(
                has_job(&self.desktops, session_id),
                Action::ToDesktop,
            ),
            Command::StopVncSession { session_id } => {
                let open: bool = has_job(&self.desktops, session_id);
                self.desktops = drop_job(&self.desktops, session_id);
                when(open, Action::CloseDesktop)
            },
            Command::DrainChanged { draining } => {
                let tell: bool = self.state.drain_requested(draining);
                when(tell, Action::TellDraining)
            },
            Command::Tick { draining } => when(self.state.may_leave(draining), Action::Leave),
        }
    }

    /// A session with a shell has been opened.
    pub fn terminal_opened(&mut self, session_id: u64)
        ensures
            final(self)@ == with_terminal(old(self)@, session_id),
            final(self)@ == (WorkerView {
                terminals: without_job(old(self)@.terminals, session_id).push(session_id),
                ..old(self)@
            }),
            final(self).setting == old(self).setting,
    {
        let mut list: Vec<u64> = drop_job(&self.terminals, session_id);
        list.push(session_id);
        self.terminals = list;
    }

    /// A session with a desktop has been opened.
    pub fn desktop_opened(&mut self, session_id: u64)
        ensures
            final(self)@ == with_desktop(old(self)@, session_id),
            final(self)@ == (WorkerView {
                desktops: without_job(old(self)@.desktops, session_id).push(session_id),
                ..old(self)@
            }),
            final(self).setting == old(self).setting,
    {
        let mut list: Vec<u64> = drop_job(&self.desktops, session_id);
        list.push(session_id);
        self.desktops = list;
    }
}

/// No command makes a worker forget where the output of a job is.
pub proof fn law_no_command_forgets_a_directory(w: WorkerView, s: Setting, c: Command, job_id: u64)
    requires
        w.dirs.contains_key(job_id),
    ensures
        reaction(w, s, c).0.dirs.contains_key(job_id),
        !(c matches Command::RunJob { job_id: started, .. } && started == job_id) ==> reaction(
            w,
            s,
            c,
        ).0.dirs[job_id] == w.dirs[job_id],
{
}

/// The controller is told once, however often a worker is asked to take no more jobs.
pub proof fn law_draining_is_told_once(w: WorkerView, s: Setting, c: Command, draining: bool)
    requires
        w.told_draining,
    ensures
        reaction(w, s, c).0.told_draining,
        !(reaction(w, s, Command::DrainChanged { draining }).1 is TellDraining),
{
}

/// A worker leaves only when it was asked to and has no job left that could be told to stop.
pub proof fn law_leaves_only_without_jobs(w: WorkerView, s: Setting, c: Command)
    requires
        reaction(w, s, c).1 is Leave,
    ensures
        w.jobs.len() == 0,
        c == (Command::Tick { draining: true }),
{
}

/// A job that was started can be stopped, and once it was told to stop it is not told again.
pub proof fn law_started_jobs_can_be_stopped_once(
    w: WorkerView,
    s: Setting,
    job_id: u64,
    working_directory: String,
    controller_url: String,
)
    ensures
        ({
            let started = reaction(
                w,
                s,
                Command::RunJob { job_id, working_directory, controller_url },
            ).0;
            let (stopped, first) = reaction(started, s, Command::TerminateJob { job_id });
            let second = reaction(stopped, s, Command::TerminateJob { job_id }).1;
            &&& first matches ActionView::Stop { signal, .. } && signal == Some(KillSignal::Cancel)
            &&& second matches ActionView::Stop { signal, steps } && signal is None && steps.len()
                == 0
        }),
{
    let started = without_job(w.jobs, job_id).push(job_id);
    assert(started[started.len() - 1] == job_id);
    assert(started.contains(job_id));
    crate::connection::law_stopping_is_told_once(started, w.steps, job_id, job_id);
}

/// The output of a job is read from the directory on record, or else from the one that the request
/// names, and each of the two streams from a file of its own: the one that the job on this worker
/// writes it to.
pub proof fn law_each_stream_has_its_file(
    w: WorkerView,
    s: Setting,
    job_id: u64,
    errors: bool,
    given: Option<String>,
    dir: Seq<char>,
)
    requires
        if w.dirs.contains_key(job_id) {
            dir == w.dirs[job_id]
        } else {
            given is Some && dir == given->0@
        },
    ensures
        ({
            let asked = reaction(
                w,
                s,
                Command::GetLogs { job_id, errors, working_directory: given },
            );
            let other = reaction(
                w,
                s,
                Command::GetLogs { job_id, errors: !errors, working_directory: given },
            );
            &&& asked.0 == w
            &&& asked.1 matches ActionView::ReadLog { path }
            &&& path == path_join(dir, log_name(job_id, s.worker_id@, errors))
            &&& has_prefix(path, dir)
            &&& has_suffix(
                path,
                decimal(job_id as nat) + "-"@ + s.worker_id@ + if errors {
                    "-stderr.log"@
                } else {
                    "-stdout.log"@
                },
            )
            &&& has_suffix(path, "-stdout.log"@) <==> !errors
            &&& has_suffix(path, "-stderr.log"@) <==> errors
            &&& other.1 matches ActionView::ReadLog { path: other_path } && other_path != path
        }),
{
    reveal_strlit("-stdout.log");
    reveal_strlit("-stderr.log");
    let out = log_name(job_id, s.worker_id@, false);
    let err = log_name(job_id, s.worker_id@, true);
    lemma_log_file(dir, job_id, s.worker_id@, false);
    lemma_log_file(dir, job_id, s.worker_id@, true);
    let a = path_join(dir, out);
    let b = path_join(dir, err);
    assert(a.subrange(a.len() - 11, a.len() as int)[4] == 'o');
    assert(b.subrange(b.len() - 11, b.len() as int)[4] == 'e');
    assert("-stdout.log"@[4] == 'o');
    assert("-stderr.log"@[4] == 'e');
}

proof fn lemma_log_file(dir: Seq<char>, job_id: u64, worker_id: Seq<char>, errors: bool)
    ensures
        ({
            let path = path_join(dir, log_name(job_id, worker_id, errors));
            let end = if errors {
                "-stderr.log"@
            } else {
                "-stdout.log"@
            };
            &&& has_prefix(path, dir)
            &&& has_suffix(path, end)
            &&& has_suffix(path, decimal(job_id as nat) + "-"@ + worker_id + end)
        }),
{
    let name = log_name(job_id, worker_id, errors);
    let end = if errors {
        "-stderr.log"@
    } else {
        "-stdout.log"@
    };
    let path = path_join(dir, name);
    lemma_decimal_digits(job_id as nat);
    assert(name[0] == decimal(job_id as nat)[0]);
    assert(is_digit(name[0]));
    assert(!absolute(name));
    let head = if dir.len() == 0 || dir.last() == '/' {
        dir
    } else {
        dir + "/"@
    };
    assert(path =~= head + name);
    lemma_ends_with(head, name);
    lemma_ends_with(head + (decimal(job_id as nat) + "-"@ + worker_id), end);
    assert(head + (decimal(job_id as nat) + "-"@ + worker_id) + end =~= path);
    assert(path.subrange(0, dir.len() as int) =~= dir);
}

/// Where no directory is on record and none is named, a job's output is not read.
pub proof fn law_output_needs_a_directory(
    w: WorkerView,
    s: Setting,
    job_id: u64,
    errors: bool,
)
    requires
        !w.dirs.contains_key(job_id),
    ensures
        reaction(w, s, Command::GetLogs { job_id, errors, working_directory: None }).1
            == (ActionView::SendLog { text: "Job working directory not found."@ }),
        reaction(w, s, Command::ListJobOutputFiles { job_id, working_directory: None }).1
            == (ActionView::ListOutputs { dir: None }),
        reaction(w, s, Command::GetJobOutputFileChunk { job_id, working_directory: None }).1
            == (ActionView::SendError {
            text: "Working directory for job "@ + decimal(job_id as nat) + " not found"@,
        }),
{
}

/// The output files of a job are listed and read below the directory on record, or else below the
/// one that the request names.
pub proof fn law_outputs_are_read_below_the_directory(
    w: WorkerView,
    s: Setting,
    job_id: u64,
    given: Option<String>,
    dir: Seq<char>,
)
    requires
        if w.dirs.contains_key(job_id) {
            dir == w.dirs[job_id]
        } else {
            given is Some && dir == given->0@
        },
    ensures
        reaction(w, s, Command::ListJobOutputFiles { job_id, working_directory: given }) == (
            w,
            ActionView::ListOutputs { dir: Some(dir) },
        ),
        reaction(w, s, Command::GetJobOutputFileChunk { job_id, working_directory: given }) == (
            w,
            ActionView::ReadOutput { dir },
        ),
{
}

/// A job that was started runs in the directory that it was sent with, or in the one for temporary
/// files where jobs run as the worker's user; its output, and a shell for it, are found there from
/// then on, whatever directory a request names.
pub proof fn law_started_jobs_are_found_where_they_run(
    w: WorkerView,
    s: Setting,
    job_id: u64,
    working_directory: String,
    controller_url: String,
    given: Option<String>,
    errors: bool,
)
    ensures
        ({
            let (started, action) = reaction(
                w,
                s,
                Command::RunJob { job_id, working_directory, controller_url },
            );
            let log = reaction(
                started,
                s,
                Command::GetLogs { job_id, errors, working_directory: given },
            ).1;
            let list = reaction(
                started,
                s,
                Command::ListJobOutputFiles { job_id, working_directory: given },
            ).1;
            let shell = reaction(started, s, Command::StartTerminalSession { job_id }).1;
            &&& action matches ActionView::StartJob { working_directory: dir, .. }
            &&& s.run_as_worker_user ==> dir == s.temp_dir@
            &&& !s.run_as_worker_user ==> dir == working_directory@
            &&& log matches ActionView::ReadLog { path } && has_prefix(path, dir)
            &&& list == (ActionView::ListOutputs { dir: Some(dir) })
            &&& shell matches ActionView::OpenTerminal { dir: shell_dir, .. } && shell_dir == dir
        }),
{
    let dir = run_dir(s, working_directory@);
    lemma_log_file(dir, job_id, s.worker_id@, errors);
}

/// A step runs in the directory that it was sent with, or in the one for temporary files where
/// steps run as the worker's user.
pub proof fn law_steps_run_where_they_were_sent(
    w: WorkerView,
    s: Setting,
    job_id: u64,
    step_id: u32,
    working_directory: String,
    controller_url: String,
)
    ensures
        reaction(
            w,
            s,
            Command::RunStep { job_id, step_id, working_directory, controller_url },
        ).1 matches ActionView::StartStep { working_directory: dir, .. } && (dir
            == if s.run_as_worker_user {
            s.temp_dir@
        } else {
            working_directory@
        }),
{
}

/// Jobs and steps are told of the controller by an address that they can reach: in place of
/// `localhost` stands the host, without its port, through which the worker reaches it. An address
/// that names another host is handed on as it is.
pub proof fn law_jobs_are_told_of_a_reachable_controller(
    w: WorkerView,
    s: Setting,
    job_id: u64,
    step_id: u32,
    working_directory: String,
    controller_url: String,
    at: int,
    host: Seq<char>,
)
    requires
        0 <= at,
        occurs_at(controller_url@, "localhost"@, at) || at == controller_url@.len(),
        forall|i: int| 0 <= i < at ==> !#[trigger] occurs_at(controller_url@, "localhost"@, i),
        has_prefix(s.addr@, host),
        !host.contains(':'),
        host.len() == s.addr@.len() || s.addr@[host.len() as int] == ':',
    ensures
        ({
            let job = reaction(w, s, Command::RunJob { job_id, working_directory, controller_url });
            let step = reaction(
                w,
                s,
                Command::RunStep { job_id, step_id, working_directory, controller_url },
            );
            let url = controller_url@;
            &&& job.1 matches ActionView::StartJob { controller_url: told, .. }
            &&& step.1 matches ActionView::StartStep { controller_url: told_step, .. }
            &&& told == told_step
            &&& at == url.len() ==> told == url
            &&& at < url.len() ==> has_prefix(told, url.take(at) + host)
            &&& at < url.len() && (forall|i: int|
                at < i ==> !#[trigger] occurs_at(url, "localhost"@, i)) ==> told == url.take(at)
                + host + url.skip(at + 9)
        }),
{
    reveal_strlit("localhost");
    let url = controller_url@;
    let first = split_on(s.addr@, ':')[0];
    law_first_piece(s.addr@, ':');
    assert(first == host) by {
        if first.len() < host.len() {
            assert(s.addr@.subrange(0, host.len() as int)[first.len() as int] == ':');
            assert(host[first.len() as int] == ':');
        }
        if host.len() < first.len() {
            assert(first[host.len() as int] == ':');
        }
        assert(s.addr@.subrange(0, host.len() as int) =~= s.addr@.take(host.len() as int));
    }
    if at == url.len() {
        assert forall|i: int| !#[trigger] occurs_at(url, "localhost"@, i) by {}
        law_nothing_to_replace(url, "localhost"@, host);
    } else {
        law_first_is_replaced(url, "localhost"@, host, at);
        let told = replaced(url, "localhost"@, host);
        let head = url.take(at) + host;
        assert(told.subrange(0, head.len() as int) =~= head);
        if forall|i: int| at < i ==> !#[trigger] occurs_at(url, "localhost"@, i) {
            let rest = url.skip(at + 9);
            assert forall|i: int| !#[trigger] occurs_at(rest, "localhost"@, i) by {
                if occurs_at(rest, "localhost"@, i) {
                    assert(url.subrange(at + 9 + i, at + 18 + i) =~= rest.subrange(i, i + 9));
                    assert(occurs_at(url, "localhost"@, at + 9 + i));
                }
            }
            law_nothing_to_replace(rest, "localhost"@, host);
        }
    }
}

proof fn lemma_added_is_there(list: Seq<u64>, id: u64, other: u64)
    ensures
        without_job(list, id).push(id).contains(id),
        other != id ==> (without_job(list, id).push(id).contains(other) <==> list.contains(other)),
{
    let kept = without_job(list, id);
    let all = kept.push(id);
    assert(all[kept.len() as int] == id);
    lemma_without_job_contains(list, id, other);
    if other != id {
        if all.contains(other) {
            let i = choose|i: int| 0 <= i < all.len() && all[i] == other;
            assert(kept[i] == other);
        }
        if kept.contains(other) {
            let i = choose|i: int| 0 <= i < kept.len() && kept[i] == other;
            assert(all[i] == other);
        }
    }
}

/// A command touches only what it is about: jobs come by being started and go by being stopped,
/// steps and their routes come by being started, and sessions go by being closed; processes and
/// desktop ports are not for the controller to change.
pub proof fn law_commands_touch_only_their_own(
    w: WorkerView,
    s: Setting,
    c: Command,
    other: u64,
)
    ensures
        ({
            let after = reaction(w, s, c).0;
            &&& after.pids == w.pids
            &&& after.ports == w.ports
            &&& !(c is RunJob) ==> after.dirs == w.dirs
            &&& !(c is RunJob || c is TerminateJob || c is PreemptJob) ==> after.jobs == w.jobs
            &&& !(c is RunStep || c is TerminateJob || c is PreemptJob) ==> after.steps == w.steps
            &&& !(c is RunStep) ==> after.routes == w.routes
            &&& !(c is DrainChanged) ==> after.told_draining == w.told_draining
            &&& !(c is StopTerminalSession) ==> after.terminals == w.terminals
            &&& !(c is StopVncSession) ==> after.desktops == w.desktops
            &&& c matches Command::RunJob { job_id, .. } ==> after.jobs.contains(job_id) && (other
                != job_id ==> (after.jobs.contains(other) <==> w.jobs.contains(other)))
            &&& c matches Command::TerminateJob { job_id } ==> !after.jobs.contains(job_id) && (
            other != job_id ==> (after.jobs.contains(other) <==> w.jobs.contains(other)))
            &&& c matches Command::PreemptJob { job_id } ==> !after.jobs.contains(job_id) && (other
                != job_id ==> (after.jobs.contains(other) <==> w.jobs.contains(other)))
            &&& c matches Command::StopTerminalSession { session_id } ==> !after.terminals.contains(
                session_id,
            ) && (other != session_id ==> (after.terminals.contains(other)
                <==> w.terminals.contains(other)))
            &&& c matches Command::StopVncSession { session_id } ==> !after.desktops.contains(
                session_id,
            ) && (other != session_id ==> (after.desktops.contains(other)
                <==> w.desktops.contains(other)))
        }),
{
    match c {
        Command::RunJob { job_id, .. } => {
            lemma_added_is_there(w.jobs, job_id, other);
        },
        Command::TerminateJob { job_id } => {
            lemma_without_job_contains(w.jobs, job_id, other);
            lemma_without_job_contains(w.jobs, job_id, job_id);
        },
        Command::PreemptJob { job_id } => {
            lemma_without_job_contains(w.jobs, job_id, other);
            lemma_without_job_contains(w.jobs, job_id, job_id);
        },
        Command::StopTerminalSession { session_id } => {
            lemma_without_job_contains(w.terminals, session_id, other);
            lemma_without_job_contains(w.terminals, session_id, session_id);
        },
        Command::StopVncSession { session_id } => {
            lemma_without_job_contains(w.desktops, session_id, other);
            lemma_without_job_contains(w.desktops, session_id, session_id);
        },
        _ => {},
    }
}

/// Whoever is to be stopped is told, and nobody else: the job itself, if it is known, and exactly
/// its own steps; a job that is terminated is cancelled and one that is preempted may end by
/// itself. Afterwards none of its steps can be told, and all steps of other jobs can.
pub proof fn law_stopping_reaches_the_job_and_its_steps(
    w: WorkerView,
    s: Setting,
    job_id: u64,
    preempt: bool,
    step: (u64, u32),
)
    ensures
        ({
            let c = if preempt {
                Command::PreemptJob { job_id }
            } else {
                Command::TerminateJob { job_id }
            };
            let (after, action) = reaction(w, s, c);
            &&& action matches ActionView::Stop { signal, steps }
            &&& signal is Some <==> w.jobs.contains(job_id)
            &&& signal is Some ==> signal == Some(
                if preempt {
                    KillSignal::Preempt
                } else {
                    KillSignal::Cancel
                },
            )
            &&& steps.contains(step.1) && step.0 == job_id <==> w.steps.contains(step) && step.0
                == job_id
            &&& after.steps.contains(step) <==> w.steps.contains(step) && step.0 != job_id
            &&& steps.len() + after.steps.len() == w.steps.len()
        }),
{
    lemma_steps_are_parted(w.steps, job_id, step);
}

proof fn lemma_pushed_contains<T>(s: Seq<T>, x: T, y: T)
    ensures
        s.push(x).contains(y) <==> s.contains(y) || x == y,
{
    let all = s.push(x);
    if all.contains(y) {
        let i = choose|i: int| 0 <= i < all.len() && all[i] == y;
        if i < s.len() {
            assert(s[i] == y);
        }
    }
    if s.contains(y) {
        let i = choose|i: int| 0 <= i < s.len() && s[i] == y;
        assert(all[i] == y);
    }
    assert(all[s.len() as int] == x);
}

proof fn lemma_steps_are_parted(steps: Seq<(u64, u32)>, job_id: u64, step: (u64, u32))
    ensures
        step.0 == job_id ==> (steps_of(steps, job_id).contains(step.1) <==> steps.contains(step)),
        steps_of_others(steps, job_id).contains(step) <==> steps.contains(step) && step.0 != job_id,
        steps_of(steps, job_id).len() + steps_of_others(steps, job_id).len() == steps.len(),
    decreases steps.len(),
{
    if steps.len() > 0 {
        let front = steps.drop_last();
        let last = steps.last();
        lemma_steps_are_parted(front, job_id, step);
        assert(front.push(last) =~= steps);
        lemma_pushed_contains(front, last, step);
        lemma_pushed_contains(steps_of(front, job_id), last.1, step.1);
        lemma_pushed_contains(steps_of_others(front, job_id), last, step);
    }
}

/// A step that was started gets its messages and can be told to stop with its job; steps that were
/// not started get none, and starting one changes nothing for the others.
pub proof fn law_messages_reach_started_steps(
    w: WorkerView,
    s: Setting,
    job_id: u64,
    step_id: u32,
    working_directory: String,
    controller_url: String,
    other: (u64, u32),
)
    ensures
        ({
            let started = reaction(
                w,
                s,
                Command::RunStep { job_id, step_id, working_directory, controller_url },
            ).0;
            let own = reaction(started, s, Command::StepMessage { job_id, step_id });
            let message = Command::StepMessage { job_id: other.0, step_id: other.1 };
            &&& own == (started, ActionView::Deliver)
            &&& other != (job_id, step_id) ==> reaction(started, s, message).1 == reaction(
                w,
                s,
                message,
            ).1
            &&& reaction(w, s, message).1 is Deliver <==> w.routes.contains(other)
            &&& reaction(w, s, message).1 is Deliver || reaction(w, s, message).1 is Nothing
            &&& started.steps.contains((job_id, step_id))
            &&& other != (job_id, step_id) ==> (started.steps.contains(other)
                <==> w.steps.contains(other))
            &&& started.steps.len() == w.steps.len() + 1
        }),
{
    let step = (job_id, step_id);
    let kept = without_step(w.routes, step);
    lemma_pushed_contains(kept, step, step);
    lemma_pushed_contains(kept, step, other);
    lemma_pushed_contains(w.steps, step, step);
    lemma_pushed_contains(w.steps, step, other);
    lemma_without_step_contains(w.routes, step, other);
}

proof fn lemma_without_step_contains(
    steps: Seq<(u64, u32)>,
    step: (u64, u32),
    other: (u64, u32),
)
    ensures
        without_step(steps, step).contains(other) <==> steps.contains(other) && other != step,
    decreases steps.len(),
{
    if steps.len() > 0 {
        let front = steps.drop_last();
        lemma_without_step_contains(front, step, other);
        assert(front.push(steps.last()) =~= steps);
        lemma_pushed_contains(front, steps.last(), other);
        lemma_pushed_contains(without_step(front, step), steps.last(), other);
    }
}

/// Input reaches a session from when it was opened until it was closed; closing it is done once,
/// and the sessions with a shell and those with a desktop are kept apart.
pub proof fn law_input_reaches_open_sessions(w: WorkerView, s: Setting, id: u64, other: u64)
    ensures
        ({
            let shell = with_terminal(w, id);
            let desktop = with_desktop(w, id);
            let (no_shell, closed_shell) = reaction(
                shell,
                s,
                Command::StopTerminalSession { session_id: id },
            );
            let (no_desktop, closed_desktop) = reaction(
                desktop,
                s,
                Command::StopVncSession { session_id: id },
            );
            &&& reaction(shell, s, Command::TerminalInput { session_id: id }) == (
                shell,
                ActionView::ToTerminal,
            )
            &&& reaction(shell, s, Command::TerminalResize { session_id: id }) == (
                shell,
                ActionView::ToTerminal,
            )
            &&& closed_shell is CloseTerminal
            &&& reaction(no_shell, s, Command::TerminalInput { session_id: id }).1 is Nothing
            &&& reaction(no_shell, s, Command::TerminalResize { session_id: id }).1 is Nothing
            &&& reaction(no_shell, s, Command::StopTerminalSession { session_id: id }).1 is Nothing
            &&& shell.desktops == w.desktops
            &&& reaction(desktop, s, Command::VncInput { session_id: id }) == (
                desktop,
                ActionView::ToDesktop,
            )
            &&& closed_desktop is CloseDesktop
            &&& reaction(no_desktop, s, Command::VncInput { session_id: id }).1 is Nothing
            &&& reaction(no_desktop, s, Command::StopVncSession { session_id: id }).1 is Nothing
            &&& desktop.terminals == w.terminals
            &&& other != id ==> (shell.terminals.contains(other) <==> w.terminals.contains(other))
            &&& other != id ==> (desktop.desktops.contains(other) <==> w.desktops.contains(other))
            &&& shell == (WorkerView { terminals: shell.terminals, ..w })
            &&& desktop == (WorkerView { desktops: desktop.desktops, ..w })
        }),
{
    lemma_added_is_there(w.terminals, id, other);
    lemma_added_is_there(w.desktops, id, other);
    lemma_without_job_contains(with_terminal(w, id).terminals, id, id);
    lemma_without_job_contains(with_desktop(w, id).desktops, id, id);
}

/// A shell for a job opens in the job's directory and at the job's process, as far as they are
/// known; its desktop is the one at the port on record.
pub proof fn law_sessions_are_opened_at_the_job(w: WorkerView, s: Setting, job_id: u64)
    ensures
        ({
            let shell = reaction(w, s, Command::StartTerminalSession { job_id });
            let desktop = reaction(w, s, Command::StartVncSession { job_id });
            &&& shell.0 == w
            &&& desktop.0 == w
            &&& shell.1 matches ActionView::OpenTerminal { dir, pid }
            &&& w.dirs.contains_key(job_id) ==> dir == w.dirs[job_id]
            &&& !w.dirs.contains_key(job_id) ==> dir == "/tmp"@
            &&& pid is Some <==> w.pids.contains_key(job_id)
            &&& pid is Some ==> pid->0 == w.pids[job_id]
            &&& w.ports.contains_key(job_id) ==> desktop.1 == (ActionView::OpenDesktop {
                port: w.ports[job_id],
            })
            &&& !w.ports.contains_key(job_id) ==> desktop.1 is RefuseDesktop
        }),
{
}

/// As many lines of a log are sent or printed as were asked for, and of the log that was asked for.
pub proof fn law_logs_have_the_lines_asked_for(
    w: WorkerView,
    s: Setting,
    source: String,
    lines: usize,
)
    ensures
        reaction(w, s, Command::GetComponentLogs { lines }) == (
            w,
            ActionView::SendComponentLog { lines: lines as nat },
        ),
        ({
            let (after, action) = reaction(w, s, Command::GetSystemLogs { source, lines });
            &&& after == w
            &&& action is RunLogCommand <==> source@ == "dmesg"@ || source@ == "syslog"@ || source@
                == "journal"@
            &&& source@ == "dmesg"@ ==> action == (ActionView::RunLogCommand {
                log: SystemLog::Kernel,
                program: "dmesg"@,
                args: seq!["-T"@],
            })
            &&& source@ == "syslog"@ ==> (action matches ActionView::RunLogCommand {
                log,
                program,
                args,
            } && log == SystemLog::Syslog && program == "tail"@ && args.len() == 3 && args[0]
                == "-n"@ && parsed_u64(args[1]) == Some(lines as u64) && args[2]
                == "/var/log/syslog"@)
            &&& source@ == "journal"@ ==> (action matches ActionView::RunLogCommand {
                log,
                program,
                args,
            } && log == SystemLog::Journal && program == "journalctl"@ && args.len() == 3 && args[0]
                == "-n"@ && parsed_u64(args[1]) == Some(lines as u64) && args[2] == "--no-pager"@)
            &&& !(action is RunLogCommand) ==> (action matches ActionView::SendSystemLog { text }
                && has_suffix(text, source@))
        }),
{
    reveal_strlit("dmesg");
    reveal_strlit("syslog");
    reveal_strlit("journal");
    assert("dmesg"@.len() == 5);
    assert("syslog"@.len() == 6);
    assert("journal"@.len() == 7);
    law_read_undoes_decimal(lines as nat);
    lemma_ends_with("Unsupported log source: "@, source@);
}

/// A worker restarts only when it is meant, after half a second and the delay asked for.
pub proof fn law_restarts_are_for_the_worker(
    w: WorkerView,
    s: Setting,
    component: String,
    delay_ms: u64,
)
    ensures
        ({
            let (after, action) = reaction(w, s, Command::Restart { component, delay_ms });
            &&& after == w
            &&& component@ == "worker"@ ==> action == (ActionView::Restart {
                grace_ms: 500,
                delay_ms: delay_ms as nat,
            })
            &&& component@ != "worker"@ ==> action is Nothing
        }),
{
}

/// The wish to take no more jobs is told when it first comes; a worker that has it and no job left
/// leaves.
pub proof fn law_draining_workers_tell_and_leave(w: WorkerView, s: Setting)
    ensures
        ({
            let (told, action) = reaction(w, s, Command::DrainChanged { draining: true });
            let (same, nothing) = reaction(w, s, Command::DrainChanged { draining: false });
            &&& action is TellDraining <==> !w.told_draining
            &&& told.told_draining
            &&& same == w && nothing is Nothing
            &&& reaction(w, s, Command::Tick { draining: true }).1 is Leave <==> w.jobs.len() == 0
            &&& reaction(w, s, Command::Tick { draining: false }).1 is Nothing
        }),
{
}

/// An action is read as it stands: the directories, the paths and the texts are those that it names.
pub proof fn law_actions_are_read_as_they_stand(
    working_directory: String,
    controller_url: String,
    path: String,
    signal: Option<KillSignal>,
    steps: Vec<u32>,
    pid: Option<u32>,
)
    ensures
        (Action::StartJob { working_directory, controller_url })@ == (ActionView::StartJob {
            working_directory: working_directory@,
            controller_url: controller_url@,
        }),
        (Action::StartStep { working_directory, controller_url })@ == (ActionView::StartStep {
            working_directory: working_directory@,
            controller_url: controller_url@,
        }),
        (Action::Stop { signal, steps })@ == (ActionView::Stop { signal, steps: steps@ }),
        (Action::ReadLog { path })@ == (ActionView::ReadLog { path: path@ }),
        (Action::ReadOutput { dir: path })@ == (ActionView::ReadOutput { dir: path@ }),
        (Action::ListOutputs { dir: Some(path) })@ == (ActionView::ListOutputs {
            dir: Some(path@),
        }),
        (Action::OpenTerminal { dir: path, pid })@ == (ActionView::OpenTerminal {
            dir: path@,
            pid,
        }),
        (Action::Deliver)@ == ActionView::Deliver && (Action::Leave)@ == ActionView::Leave
            && (Action::TellDraining)@ == ActionView::TellDraining && (Action::Nothing)@
            == ActionView::Nothing,
{
}

/// What a worker keeps track of is read as it is kept.
pub proof fn law_workers_are_read_as_they_are(w: Worker, job_id: u64)
    ensures
        w@.jobs == w.state.jobs@ && w@.steps == w.state.steps@ && w@.routes == w.state.routes@,
        w@.pids == w.state.pids@ && w@.ports == w.state.vnc_ports@,
        w@.told_draining == w.state.told_draining,
        w@.terminals == w.terminals@ && w@.desktops == w.desktops@,
        w@.dirs.contains_key(job_id) <==> w.state.dirs@.contains_key(job_id),
        w.state.dirs@.contains_key(job_id) ==> w@.dirs[job_id] == w.state.dirs@[job_id]@,
{
}

} // verus!
