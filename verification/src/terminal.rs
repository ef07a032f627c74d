//! Where an interactive shell attaches to a running job.

use vstd::prelude::*;

use crate::numbers::decimal;
use crate::numbers::decimal_u32;
use crate::text::contains;
use crate::text::has_prefix;
use crate::text::has_text;
use crate::text::lowercase;
use crate::text::lowercased;
use crate::text::starts_with;
use crate::text::str_eq;
use crate::text::texts;

verus! {

/// The lower-case name is that of a desktop helper: such a process shares the job's
/// namespaces, but is a poor place to attach to.
pub open spec fn helper_name(n: Seq<char>) -> bool {
    ||| has_text(n, "xtigervnc"@)
    ||| has_text(n, "xvnc"@)
    ||| has_text(n, "xorg"@)
    ||| n == "x"@
    ||| has_text(n, "dbus-daemon"@)
    ||| has_text(n, "dbus-launch"@)
    ||| has_text(n, "dbus-broker"@)
    ||| has_prefix(n, "pipewire"@)
    ||| has_prefix(n, "wireplumber"@)
    ||| n == "gpg-agent"@
    ||| n == "ssh-agent"@
}

/// The lower-case name is that of a shell, a session or an interpreter.
pub open spec fn payload_name(n: Seq<char>) -> bool {
    ||| has_text(n, "bash"@)
    ||| has_text(n, "zsh"@)
    ||| has_text(n, "fish"@)
    ||| n == "sh"@
    ||| has_text(n, "xfce4-terminal"@)
    ||| has_text(n, "xfce4-session"@)
    ||| has_text(n, "startxfce"@)
    ||| has_text(n, "gnome-session"@)
    ||| has_text(n, "python"@)
    ||| has_text(n, "julia"@)
    ||| has_text(n, "matlab"@)
    ||| n == "r"@
    ||| has_text(n, "rscript"@)
    ||| has_text(n, "java"@)
    ||| has_text(n, "node"@)
}

/// `is_namespace_helper` for a name that is in lower case already.
pub fn names_helper(n: &str) -> (r: bool)
    ensures
        r == helper_name(n@),
{
    contains(n, "xtigervnc") || contains(n, "xvnc") || contains(n, "xorg") || str_eq(n, "x")
        || contains(n, "dbus-daemon") || contains(n, "dbus-launch") || contains(n, "dbus-broker")
        || starts_with(n, "pipewire") || starts_with(n, "wireplumber") || str_eq(n, "gpg-agent")
        || str_eq(n, "ssh-agent")
}

/// `is_preferred_payload` for a name that is in lower case already.
pub fn names_payload(n: &str) -> (r: bool)
    ensures
        r == payload_name(n@),
{
    contains(n, "bash") || contains(n, "zsh") || contains(n, "fish") || str_eq(n, "sh")
        || contains(n, "xfce4-terminal") || contains(n, "xfce4-session") || contains(
        n,
        "startxfce",
    ) || contains(n, "gnome-session") || contains(n, "python") || contains(n, "julia")
        || contains(n, "matlab") || str_eq(n, "r") || contains(n, "rscript") || contains(n, "java")
        || contains(n, "node")
}

pub fn is_namespace_helper(name: &str) -> (r: bool)
    ensures
        r == helper_name(lowercased(name@)),
{
    names_helper(&lowercase(name))
}

pub fn is_preferred_payload(name: &str) -> (r: bool)
    ensures
        r == payload_name(lowercased(name@)),
{
    names_payload(&lowercase(name))
}

/// A process of the machine.
pub struct ProcRow {
    pub pid: u32,
    pub parent: Option<u32>,
    pub name: String,
}

/// What a row says.
pub struct ProcView {
    pub pid: u32,
    pub parent: Option<u32>,
    pub name: Seq<char>,
}

impl View for ProcRow {
    type V = ProcView;

    open spec fn view(&self) -> ProcView {
        ProcView { pid: self.pid, parent: self.parent, name: self.name@ }
    }
}

pub open spec fn proc_views(rows: Seq<ProcRow>) -> Seq<ProcView> {
    Seq::new(rows.len(), |i: int| rows[i]@)
}

/// The row is of a child of `pid` that one may attach to.
pub open spec fn candidate(row: ProcView, pid: u32) -> bool {
    row.parent == Some(pid) && !helper_name(row.name)
}

/// `a` is to be taken before `b`: payloads come first, then lower process numbers.
pub open spec fn comes_before(a: ProcView, b: ProcView) -> bool {
    if payload_name(a.name) == payload_name(b.name) {
        a.pid < b.pid
    } else {
        payload_name(a.name)
    }
}

/// The child of `pid` to go on with among the first `n` rows.
pub open spec fn best_child(rows: Seq<ProcView>, pid: u32, n: int) -> Option<int>
    decreases n,
{
    if n <= 0 {
        None
    } else if !candidate(rows[n - 1], pid) {
        best_child(rows, pid, n - 1)
    } else {
        match best_child(rows, pid, n - 1) {
            None => Some(n - 1),
            Some(b) => if comes_before(rows[n - 1], rows[b]) {
                Some(n - 1)
            } else {
                Some(b)
            },
        }
    }
}

/// The process that is reached from `pid` in at most `depth` steps to a best child.
pub open spec fn attach_pid(rows: Seq<ProcView>, pid: u32, depth: nat) -> u32
    decreases depth,
{
    if depth == 0 {
        pid
    } else {
        match best_child(rows, pid, rows.len() as int) {
            None => pid,
            Some(b) => attach_pid(rows, rows[b].pid, (depth - 1) as nat),
        }
    }
}

/// How far down the tree of processes the place to attach to may lie.
pub const ATTACH_DEPTH: u32 = 10;

fn next_pid(rows: &Vec<ProcRow>, pid: u32) -> (r: Option<usize>)
    ensures
        match best_child(proc_views(rows@), pid, rows@.len() as int) {
            Some(b) => r is Some && r->0 == b && b < rows@.len(),
            None => r is None,
        },
{
    let ghost v = proc_views(rows@);
    let mut best: Option<usize> = None;
    let mut i: usize = 0;
    while i < rows.len()
        invariant
            i <= rows@.len(),
            v == proc_views(rows@),
            match best_child(v, pid, i as int) {
                Some(b) => best is Some && best->0 == b && b < i,
                None => best is None,
            },
        decreases rows@.len() - i,
    {
        assert(v[i as int] == rows@[i as int]@);
        let child: bool = match rows[i].parent {
            Some(p) => p == pid,
            None => false,
        };
        if child && !names_helper(&rows[i].name) {
            match best {
                None => {
                    best = Some(i);
                },
                Some(b) => {
                    assert(v[b as int] == rows@[b as int]@);
                    let new_payload: bool = names_payload(&rows[i].name);
                    let old_payload: bool = names_payload(&rows[b].name);
                    let earlier: bool = if new_payload == old_payload {
                        rows[i].pid < rows[b].pid
                    } else {
                        new_payload
                    };
                    if earlier {
                        best = Some(i);
                    }
                },
            }
        }
        i = i + 1;
    }
    best
}

/// The process to attach to, where the names of the rows are in lower case.
pub fn attach_target(rows: &Vec<ProcRow>, root_pid: u32) -> (r: u32)
    ensures
        r == attach_pid(proc_views(rows@), root_pid, ATTACH_DEPTH as nat),
{
    let mut current: u32 = root_pid;
    let mut left: u32 = ATTACH_DEPTH;
    while left > 0
        invariant
            left <= ATTACH_DEPTH,
            attach_pid(proc_views(rows@), root_pid, ATTACH_DEPTH as nat) == attach_pid(
                proc_views(rows@),
                current,
                left as nat,
            ),
        decreases left,
    {
        match next_pid(rows, current) {
            None => {
                return current;
            },
            Some(b) => {
                current = rows[b].pid;
            },
        }
        left = left - 1;
    }
    current
}

pub open spec fn lowered(rows: Seq<ProcView>) -> Seq<ProcView> {
    Seq::new(
        rows.len(),
        |i: int| ProcView { pid: rows[i].pid, parent: rows[i].parent, name: lowercased(rows[i].name) },
    )
}

/// A process inside the job's namespaces: the job's own tree of processes is followed down,
/// past desktop helpers, towards shells, sessions and interpreters.
pub fn find_attach_pid(rows: &Vec<ProcRow>, root_pid: u32) -> (r: u32)
    ensures
        r == attach_pid(lowered(proc_views(rows@)), root_pid, ATTACH_DEPTH as nat),
{
    let mut low: Vec<ProcRow> = Vec::new();
    let mut i: usize = 0;
    while i < rows.len()
        invariant
            i <= rows@.len(),
            proc_views(low@) == lowered(proc_views(rows@)).take(i as int),
        decreases rows@.len() - i,
    {
        let row = ProcRow {
            pid: rows[i].pid,
            parent: rows[i].parent,
            name: lowercase(&rows[i].name),
        };
        let ghost before = low@;
        low.push(row);
        assert(proc_views(low@) =~= proc_views(before).push(row@));
        assert(lowered(proc_views(rows@))[i as int] == row@);
        i = i + 1;
    }
    assert(proc_views(low@) =~= lowered(proc_views(rows@)));
    attach_target(&low, root_pid)
}

proof fn lemma_best_child(rows: Seq<ProcView>, pid: u32, n: int)
    requires
        0 <= n <= rows.len(),
    ensures
        match best_child(rows, pid, n) {
            Some(b) => 0 <= b < n && candidate(rows[b], pid) && forall|j: int|
                0 <= j < n && candidate(#[trigger] rows[j], pid) ==> !comes_before(
                    rows[j],
                    rows[b],
                ),
            None => forall|j: int| 0 <= j < n ==> !candidate(#[trigger] rows[j], pid),
        },
    decreases n,
{
    if n > 0 {
        lemma_best_child(rows, pid, n - 1);
    }
}

/// At each level the search goes on with the best child there is, and it stops where there
/// is none but helpers.
pub proof fn law_best_child_is_best(rows: Seq<ProcView>, pid: u32)
    ensures
        match best_child(rows, pid, rows.len() as int) {
            Some(b) => 0 <= b < rows.len() && candidate(rows[b], pid) && forall|j: int|
                0 <= j < rows.len() && candidate(#[trigger] rows[j], pid) ==> !comes_before(
                    rows[j],
                    rows[b],
                ),
            None => forall|j: int| 0 <= j < rows.len() ==> !candidate(#[trigger] rows[j], pid),
        },
{
    lemma_best_child(rows, pid, rows.len() as int);
}

/// A shell never attaches to a desktop helper: where the search leaves the root, it ends at
/// a process that is none.
pub proof fn law_never_attaches_to_helpers(rows: Seq<ProcView>, pid: u32, depth: nat)
    ensures
        attach_pid(rows, pid, depth) == pid || exists|i: int|
            0 <= i < rows.len() && (#[trigger] rows[i]).pid == attach_pid(rows, pid, depth)
                && !helper_name(rows[i].name),
    decreases depth,
{
    if depth > 0 {
        lemma_best_child(rows, pid, rows.len() as int);
        if let Some(b) = best_child(rows, pid, rows.len() as int) {
            law_never_attaches_to_helpers(rows, rows[b].pid, (depth - 1) as nat);
            if attach_pid(rows, pid, depth) == rows[b].pid {
                assert(!helper_name(rows[b].name));
            }
        }
    }
}

/// A program and its arguments.
pub struct ShellCommand {
    pub program: String,
    pub args: Vec<String>,
}

/// The arguments by which a shell enters the namespaces of a process.
pub open spec fn enter_args(pid: u32) -> Seq<Seq<char>> {
    seq![
        "--target"@,
        decimal(pid as nat),
        "--mount"@,
        "--uts"@,
        "--ipc"@,
        "--net"@,
        "--pid"@,
        "/bin/bash"@,
    ]
}

/// The command of an interactive shell, in the namespaces of a process or in the worker's.
pub fn terminal_command(attach_to: Option<u32>) -> (r: ShellCommand)
    ensures
        match attach_to {
            Some(pid) => r.program@ == "/usr/bin/nsenter"@ && texts(r.args@) == enter_args(pid),
            None => r.program@ == "/bin/bash"@ && r.args@.len() == 0,
        },
{
    let mut args: Vec<String> = Vec::new();
    match attach_to {
        Some(pid) => {
            args.push("--target".to_owned());
            args.push(decimal_u32(pid));
            args.push("--mount".to_owned());
            args.push("--uts".to_owned());
            args.push("--ipc".to_owned());
            args.push("--net".to_owned());
            args.push("--pid".to_owned());
            args.push("/bin/bash".to_owned());
            assert(texts(args@) =~= enter_args(pid));
            ShellCommand { program: "/usr/bin/nsenter".to_owned(), args }
        },
        None => ShellCommand { program: "/bin/bash".to_owned(), args },
    }
}

/// Whatever is around it, the name of a shell, a session or an interpreter is that of a payload, and
/// the name of a part of the desktop that of a helper.
pub proof fn law_payloads_and_helpers_are_known(a: Seq<char>, b: Seq<char>)
    ensures
        payload_name(a + "bash"@ + b),
        payload_name(a + "zsh"@ + b),
        payload_name(a + "fish"@ + b),
        payload_name(a + "xfce4-terminal"@ + b),
        payload_name(a + "xfce4-session"@ + b),
        payload_name(a + "startxfce"@ + b),
        payload_name(a + "gnome-session"@ + b),
        payload_name(a + "python"@ + b),
        payload_name(a + "julia"@ + b),
        payload_name(a + "matlab"@ + b),
        payload_name(a + "rscript"@ + b),
        payload_name(a + "java"@ + b),
        payload_name(a + "node"@ + b),
        payload_name("sh"@),
        payload_name("r"@),
        helper_name(a + "xtigervnc"@ + b),
        helper_name(a + "xvnc"@ + b),
        helper_name(a + "xorg"@ + b),
        helper_name(a + "dbus-daemon"@ + b),
        helper_name(a + "dbus-launch"@ + b),
        helper_name(a + "dbus-broker"@ + b),
        helper_name("pipewire"@ + b),
        helper_name("wireplumber"@ + b),
        helper_name("x"@),
        helper_name("gpg-agent"@),
        helper_name("ssh-agent"@),
{
    crate::text::lemma_holds(a, "bash"@, b);
    crate::text::lemma_holds(a, "zsh"@, b);
    crate::text::lemma_holds(a, "fish"@, b);
    crate::text::lemma_holds(a, "xfce4-terminal"@, b);
    crate::text::lemma_holds(a, "xfce4-session"@, b);
    crate::text::lemma_holds(a, "startxfce"@, b);
    crate::text::lemma_holds(a, "gnome-session"@, b);
    crate::text::lemma_holds(a, "python"@, b);
    crate::text::lemma_holds(a, "julia"@, b);
    crate::text::lemma_holds(a, "matlab"@, b);
    crate::text::lemma_holds(a, "rscript"@, b);
    crate::text::lemma_holds(a, "java"@, b);
    crate::text::lemma_holds(a, "node"@, b);
    crate::text::lemma_holds(a, "xtigervnc"@, b);
    crate::text::lemma_holds(a, "xvnc"@, b);
    crate::text::lemma_holds(a, "xorg"@, b);
    crate::text::lemma_holds(a, "dbus-daemon"@, b);
    crate::text::lemma_holds(a, "dbus-launch"@, b);
    crate::text::lemma_holds(a, "dbus-broker"@, b);
    assert(("pipewire"@ + b).subrange(0, "pipewire"@.len() as int) =~= "pipewire"@);
    assert(("wireplumber"@ + b).subrange(0, "wireplumber"@.len() as int) =~= "wireplumber"@);
}

/// A child that the search goes on with is a child of the process and no helper. It is a payload if
/// any such child is one, and has the lowest number of its kind. Where there is no such child, the
/// search stops.
pub proof fn law_payloads_go_before_others(rows: Seq<ProcView>, pid: u32, j: int)
    requires
        0 <= j < rows.len(),
        rows[j].parent == Some(pid) && !helper_name(rows[j].name),
    ensures
        best_child(rows, pid, rows.len() as int) matches Some(b) && 0 <= b < rows.len()
            && rows[b].parent == Some(pid) && !helper_name(rows[b].name) && (payload_name(
            rows[j].name,
        ) ==> payload_name(rows[b].name)) && (payload_name(rows[j].name) == payload_name(
            rows[b].name,
        ) ==> rows[b].pid <= rows[j].pid),
{
    lemma_best_child(rows, pid, rows.len() as int);
    assert(candidate(rows[j], pid));
}

/// A search that may go one step further goes on with the best child of where it ended, or ends
/// there too.
pub proof fn law_attaching_goes_down_step_by_step(rows: Seq<ProcView>, pid: u32, depth: nat)
    ensures
        attach_pid(rows, pid, 0) == pid,
        attach_pid(rows, pid, depth + 1) == (match best_child(
            rows,
            attach_pid(rows, pid, depth),
            rows.len() as int,
        ) {
            Some(b) => rows[b].pid,
            None => attach_pid(rows, pid, depth),
        }),
    decreases depth,
{
    if depth == 0 {
        if let Some(b) = best_child(rows, pid, rows.len() as int) {
            assert(attach_pid(rows, rows[b].pid, 0) == rows[b].pid);
        }
    } else {
        if let Some(b) = best_child(rows, pid, rows.len() as int) {
            law_attaching_goes_down_step_by_step(rows, rows[b].pid, (depth - 1) as nat);
        }
    }
}

/// A shell that is attached enters every namespace of the process it is attached to, and no other
/// process.
pub proof fn law_shells_enter_every_namespace(pid: u32)
    ensures
        enter_args(pid)[0] == "--target"@,
        crate::numbers::read_nat(enter_args(pid)[1]) == Some(pid as nat),
        enter_args(pid).contains("--mount"@),
        enter_args(pid).contains("--uts"@),
        enter_args(pid).contains("--ipc"@),
        enter_args(pid).contains("--net"@),
        enter_args(pid).contains("--pid"@),
        enter_args(pid).last() == "/bin/bash"@,
{
    let a = enter_args(pid);
    crate::numbers::law_read_undoes_decimal(pid as nat);
    assert(a[2] == "--mount"@ && a[3] == "--uts"@ && a[4] == "--ipc"@ && a[5] == "--net"@ && a[6]
        == "--pid"@);
}

} // verus!
