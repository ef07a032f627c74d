//! The page for administrators.

use vstd::prelude::*;

use crate::numbers::parse_u64;
use crate::numbers::parsed_u64;
use crate::text::contains;
use crate::text::has_text;
use crate::text::lowercase;
use crate::text::lowercased;
use crate::web::format::format_billions;
use crate::web::format::format_megabyte_rate;
use crate::web::format::megabyte_rate_text;
use crate::web::format::quotient_text;
use crate::web::info::ControllerInfo;
use crate::web::info::WorkerInfo;
use crate::web::telemetry_page::has_gpu;
use crate::web::telemetry_page::lists_gpu;

verus! {

/// A setting that is kept between visits, or what it starts out as.
pub fn stored_or(stored: Option<String>, other: &str) -> (r: String)
    ensures
        r@ == match stored {
            Some(value) => value@,
            None => other@,
        },
{
    match stored {
        Some(value) => value,
        None => other.to_string(),
    }
}

/// How many lines of a log are asked for: as typed, or a hundred.
pub fn lines_or_hundred(text: &Option<String>) -> (r: u64)
    ensures
        r == match *text {
            Some(text) => match parsed_u64(text@) {
                Some(lines) => lines,
                None => 100u64,
            },
            None => 100u64,
        },
{
    match text {
        Some(text) => match parse_u64(text) {
            Some(lines) => lines,
            None => 100,
        },
        None => 100,
    }
}

/// A part of the cluster that can be picked: its value, and how it is shown.
pub struct Choice {
    pub value: String,
    pub shown: String,
}

pub open spec fn choice_views(choices: Seq<Choice>) -> Seq<(Seq<char>, Seq<char>)> {
    Seq::new(choices.len(), |i: int| (choices[i].value@, choices[i].shown@))
}

pub open spec fn controller_choice(c: ControllerInfo) -> (Seq<char>, Seq<char>) {
    (c.hostname@, c.hostname@ + " ("@ + c.role@ + ")"@)
}

pub open spec fn worker_choice(w: WorkerInfo) -> (Seq<char>, Seq<char>) {
    (w.id@, "Worker: "@ + w.hostname@)
}

/// The controllers that can be picked, or the one that is expected where none is known; then the
/// file server.
pub open spec fn infrastructure(cs: Seq<ControllerInfo>) -> Seq<(Seq<char>, Seq<char>)> {
    (if cs.len() == 0 {
        seq![("veloce-controller-ha-1"@, "veloce-controller-ha-1"@)]
    } else {
        Seq::new(cs.len(), |i: int| controller_choice(cs[i]))
    }).push(("fileserver"@, "Fileserver"@))
}

pub fn infrastructure_choices(controllers: &Vec<ControllerInfo>) -> (r: Vec<Choice>)
    ensures
        choice_views(r@) == infrastructure(controllers@),
{
    let mut r: Vec<Choice> = Vec::new();
    let n: usize = controllers.len();
    if n == 0 {
        r.push(
            Choice {
                value: "veloce-controller-ha-1".to_string(),
                shown: "veloce-controller-ha-1".to_string(),
            },
        );
    }
    let mut i: usize = 0;
    while i < n
        invariant
            i <= n,
            n == controllers@.len(),
            n > 0 ==> r@.len() == i,
            n == 0 ==> r@.len() == 1 && r@[0].value@ == "veloce-controller-ha-1"@ && r@[0].shown@
                == "veloce-controller-ha-1"@,
            n > 0 ==> forall|k: int|
                0 <= k < i ==> ((#[trigger] r@[k]).value@, r@[k].shown@) == controller_choice(
                    controllers@[k],
                ),
        decreases n - i,
    {
        let c: &ControllerInfo = &controllers[i];
        let mut shown: String = c.hostname.clone();
        shown.append(" (");
        shown.append(&c.role);
        shown.append(")");
        r.push(Choice { value: c.hostname.clone(), shown });
        i = i + 1;
    }
    r.push(Choice { value: "fileserver".to_string(), shown: "Fileserver".to_string() });
    assert(choice_views(r@) =~= infrastructure(controllers@));
    r
}

pub fn worker_choices(workers: &Vec<WorkerInfo>) -> (r: Vec<Choice>)
    ensures
        choice_views(r@) == Seq::new(workers@.len(), |i: int| worker_choice(workers@[i])),
{
    let mut r: Vec<Choice> = Vec::new();
    let mut i: usize = 0;
    while i < workers.len()
        invariant
            i <= workers@.len(),
            r@.len() == i,
            forall|k: int|
                0 <= k < i ==> ((#[trigger] r@[k]).value@, r@[k].shown@) == worker_choice(
                    workers@[k],
                ),
        decreases workers@.len() - i,
    {
        let w: &WorkerInfo = &workers[i];
        let mut shown: String = "Worker: ".to_string();
        shown.append(&w.hostname);
        r.push(Choice { value: w.id.clone(), shown });
        i = i + 1;
    }
    assert(choice_views(r@) =~= Seq::new(workers@.len(), |i: int| worker_choice(workers@[i])));
    r
}

/// The class of the badge that shows how a repair went, by what is said of it in lower case.
pub open spec fn repair_class(lowered: Seq<char>) -> Seq<char> {
    if has_text(lowered, "error"@) {
        "badge failed"@
    } else {
        "badge running"@
    }
}

pub fn class_of_lowered(lowered: &str) -> (r: &'static str)
    ensures
        r@ == repair_class(lowered@),
{
    if contains(lowered, "error") {
        "badge failed"
    } else {
        "badge running"
    }
}

/// The class of the badge that shows how a repair went, by what is said of it.
pub fn remediation_class(status: &str) -> (r: &'static str)
    ensures
        r@ == repair_class(lowercased(status@)),
{
    class_of_lowered(&lowercase(status))
}

/// What is said when logs are asked for.
pub fn logs_hint() -> (r: &'static str)
    ensures
        r@
            == "Use the veloce CLI for component logs (for example `veloce doctor` and host journalctl)."@,
{
    "Use the veloce CLI for component logs (for example `veloce doctor` and host journalctl)."
}

/// What is said when a repair is asked for.
pub fn remediation_hint() -> (r: &'static str)
    ensures
        r@ == "Autonomous node remediation is not available in this build."@,
{
    "Autonomous node remediation is not available in this build."
}

/// A worker as the page shows it: whether it is online, its memory, whether it has graphics
/// processors, and what it receives and sends.
pub struct WorkerCard {
    pub hostname: String,
    pub badge_class: &'static str,
    pub badge: &'static str,
    pub memory: String,
    pub gpu_color: &'static str,
    pub gpu: &'static str,
    pub net_rx: String,
    pub net_tx: String,
}

/// The card of a worker; `memory_percent` is the share of its memory in use, written without a
/// fraction.
pub fn worker_card(w: &WorkerInfo, memory_percent: &str) -> (r: WorkerCard)
    ensures
        r.hostname@ == w.hostname@,
        (r.badge_class@, r.badge@) == if w.online {
            ("badge completed"@, "ONLINE"@)
        } else {
            ("badge failed"@, "OFFLINE"@)
        },
        r.memory@ == quotient_text(w.used_memory as nat, 1_000_000_000) + " / "@ + quotient_text(
            w.total_memory as nat,
            1_000_000_000,
        ) + " GB ("@ + memory_percent@ + "%)"@,
        (r.gpu_color@, r.gpu@) == if lists_gpu(*w) {
            ("var(--success)"@, "Accelerated"@)
        } else {
            ("var(--text-muted)"@, "No GPU Hardware"@)
        },
        r.net_rx@ == megabyte_rate_text(w.net_rx_rate as nat),
        r.net_tx@ == megabyte_rate_text(w.net_tx_rate as nat),
{
    let (badge_class, badge): (&'static str, &'static str) = if w.online {
        ("badge completed", "ONLINE")
    } else {
        ("badge failed", "OFFLINE")
    };
    let (gpu_color, gpu): (&'static str, &'static str) = if has_gpu(w) {
        ("var(--success)", "Accelerated")
    } else {
        ("var(--text-muted)", "No GPU Hardware")
    };
    let mut memory: String = format_billions(w.used_memory);
    memory.append(" / ");
    memory.append(&format_billions(w.total_memory));
    memory.append(" GB (");
    memory.append(memory_percent);
    memory.append("%)");
    WorkerCard {
        hostname: w.hostname.clone(),
        badge_class,
        badge,
        memory,
        gpu_color,
        gpu,
        net_rx: format_megabyte_rate(w.net_rx_rate),
        net_tx: format_megabyte_rate(w.net_tx_rate),
    }
}

/// Every controller can be picked by its host name, in the order in which they are known, and the
/// file server after them; where none is known, the one that is expected.
pub proof fn law_everything_can_be_picked(cs: Seq<ControllerInfo>, i: int)
    ensures
        infrastructure(cs).last().0 == "fileserver"@,
        cs.len() > 0 ==> infrastructure(cs).len() == cs.len() + 1,
        0 <= i < cs.len() ==> infrastructure(cs)[i].0 == cs[i].hostname@ && infrastructure(cs)[i].1
            == cs[i].hostname@ + " ("@ + cs[i].role@ + ")"@,
        cs.len() == 0 ==> infrastructure(cs).len() == 2 && infrastructure(cs)[0].0
            == "veloce-controller-ha-1"@,
{
}

/// A worker is picked by its name, and shown with its host name.
pub proof fn law_workers_are_picked_by_name(w: WorkerInfo)
    ensures
        worker_choice(w).0 == w.id@,
        worker_choice(w).1 == "Worker: "@ + w.hostname@,
{
}

/// A repair is shown as failed exactly if what is said of it speaks of an error.
pub proof fn law_errors_are_shown_as_failed(a: Seq<char>, b: Seq<char>, lowered: Seq<char>)
    ensures
        repair_class(a + "error"@ + b) == "badge failed"@,
        !has_text(lowered, "error"@) ==> repair_class(lowered) == "badge running"@,
{
    crate::text::lemma_holds(a, "error"@, b);
}

} // verus!
