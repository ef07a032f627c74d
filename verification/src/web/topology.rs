//! The picture of the compute pool: one mark for each worker of a small cluster, and one for
//! each group of workers of a large one.

use vstd::prelude::*;

use crate::numbers::decimal;
use crate::numbers::decimal_usize;
use crate::order::law_text_order_is_total;
use crate::order::law_text_order_is_transitive;
use crate::order::reversed;
use crate::order::take_first;
use crate::order::text_at_most;
use crate::order::text_le;
use crate::text::str_eq;
use crate::web::info::WorkerInfo;
use crate::web::listing::lemma_kept_some;

verus! {

/// How much of a worker is in use.
#[derive(Clone, Copy, PartialEq, Eq, Structural)]
pub enum WorkerVisualState {
    Free,
    Partial,
    Busy,
    Offline,
}

impl WorkerVisualState {
    /// The place of the state in the order of states.
    pub open spec fn rank(self) -> nat {
        match self {
            WorkerVisualState::Free => 0,
            WorkerVisualState::Partial => 1,
            WorkerVisualState::Busy => 2,
            WorkerVisualState::Offline => 3,
        }
    }

    fn place(self) -> (r: u8)
        ensures
            r == self.rank(),
    {
        match self {
            WorkerVisualState::Free => 0,
            WorkerVisualState::Partial => 1,
            WorkerVisualState::Busy => 2,
            WorkerVisualState::Offline => 3,
        }
    }

    pub open spec fn name(self) -> Seq<char> {
        match self {
            WorkerVisualState::Free => "FREE"@,
            WorkerVisualState::Partial => "PARTIAL"@,
            WorkerVisualState::Busy => "BUSY"@,
            WorkerVisualState::Offline => "OFFLINE"@,
        }
    }

    pub fn label(self) -> (r: &'static str)
        ensures
            r@ == self.name(),
    {
        match self {
            WorkerVisualState::Free => "FREE",
            WorkerVisualState::Partial => "PARTIAL",
            WorkerVisualState::Busy => "BUSY",
            WorkerVisualState::Offline => "OFFLINE",
        }
    }

    /// The class of the square that stands for a core or a worker in this state.
    pub open spec fn square(self) -> Seq<char> {
        match self {
            WorkerVisualState::Free => "free"@,
            WorkerVisualState::Partial => "partial"@,
            WorkerVisualState::Busy => "busy"@,
            WorkerVisualState::Offline => "offline"@,
        }
    }

    pub fn class(self) -> (r: &'static str)
        ensures
            r@ == self.square(),
    {
        match self {
            WorkerVisualState::Free => "free",
            WorkerVisualState::Partial => "partial",
            WorkerVisualState::Busy => "busy",
            WorkerVisualState::Offline => "offline",
        }
    }

    /// The colours of the inside and of the rim of a mark.
    pub open spec fn fill_and_stroke(self) -> (Seq<char>, Seq<char>) {
        match self {
            WorkerVisualState::Free => ("#4caf50"@, "#a5d6a7"@),
            WorkerVisualState::Partial => ("#00bcd4"@, "var(--ds-cyan-glow)"@),
            WorkerVisualState::Busy => ("#ffb74d"@, "var(--ds-orange-glow)"@),
            WorkerVisualState::Offline => ("#78909c"@, "#b0bec5"@),
        }
    }

    pub fn colors(self) -> (r: (&'static str, &'static str))
        ensures
            (r.0@, r.1@) == self.fill_and_stroke(),
    {
        match self {
            WorkerVisualState::Free => ("#4caf50", "#a5d6a7"),
            WorkerVisualState::Partial => ("#00bcd4", "var(--ds-cyan-glow)"),
            WorkerVisualState::Busy => ("#ffb74d", "var(--ds-orange-glow)"),
            WorkerVisualState::Offline => ("#78909c", "#b0bec5"),
        }
    }
}

/// The cores of a worker that are in use.
pub open spec fn busy_cores(w: WorkerInfo) -> nat {
    if w.total_cores > w.available_cores {
        (w.total_cores - w.available_cores) as nat
    } else {
        0
    }
}

pub fn busy_cores_of(w: &WorkerInfo) -> (r: usize)
    ensures
        r == busy_cores(*w),
{
    if w.total_cores > w.available_cores {
        w.total_cores - w.available_cores
    } else {
        0
    }
}

pub open spec fn visual_state(w: WorkerInfo) -> WorkerVisualState {
    if !w.online {
        WorkerVisualState::Offline
    } else if busy_cores(w) == 0 {
        WorkerVisualState::Free
    } else if busy_cores(w) >= w.total_cores {
        WorkerVisualState::Busy
    } else {
        WorkerVisualState::Partial
    }
}

pub fn worker_visual_state(worker: &WorkerInfo) -> (r: WorkerVisualState)
    ensures
        r == visual_state(*worker),
{
    if !worker.online {
        WorkerVisualState::Offline
    } else {
        let busy: usize = busy_cores_of(worker);
        if busy == 0 {
            WorkerVisualState::Free
        } else if busy >= worker.total_cores {
            WorkerVisualState::Busy
        } else {
            WorkerVisualState::Partial
        }
    }
}

/// Where a mark stands on the rings around the pool: its number on its ring, how many marks
/// share the ring, and the radius of the ring.
pub struct OrbitSlot {
    pub ring_index: usize,
    pub ring_total: usize,
    pub radius: u32,
}

/// Up to twelve marks share one ring; of more, the first twelve stand on an inner ring and the
/// others on an outer one.
pub open spec fn slot_of(index: nat, total: nat) -> (nat, nat, nat) {
    if total <= 12 {
        (index, if total == 0 { 1 } else { total }, 42)
    } else if index < 12 {
        (index, 12, 34)
    } else {
        ((index - 12) as nat, (total - 12) as nat, 60)
    }
}

pub fn orbital_position(index: usize, total: usize) -> (r: OrbitSlot)
    ensures
        (r.ring_index as nat, r.ring_total as nat, r.radius as nat) == slot_of(
            index as nat,
            total as nat,
        ),
{
    if total <= 12 {
        let ring_total: usize = if total == 0 {
            1
        } else {
            total
        };
        OrbitSlot { ring_index: index, ring_total, radius: 42 }
    } else if index < 12 {
        OrbitSlot { ring_index: index, ring_total: 12, radius: 34 }
    } else {
        OrbitSlot { ring_index: index - 12, ring_total: total - 12, radius: 60 }
    }
}

/// No two of the marks of a picture stand in the same place.
pub proof fn law_marks_do_not_overlap(i: nat, j: nat, total: nat)
    requires
        i < total,
        j < total,
        i != j,
    ensures
        slot_of(i, total) != slot_of(j, total),
        slot_of(i, total).0 < slot_of(i, total).1,
{
}

/// The sum of an amount over a list of workers.
pub open spec fn sum_over(ws: Seq<WorkerInfo>, f: spec_fn(WorkerInfo) -> nat) -> nat
    decreases ws.len(),
{
    if ws.len() == 0 {
        0
    } else {
        sum_over(ws.drop_last(), f) + f(ws.last())
    }
}

pub proof fn lemma_sum_push(ws: Seq<WorkerInfo>, w: WorkerInfo, f: spec_fn(WorkerInfo) -> nat)
    ensures
        sum_over(ws.push(w), f) == sum_over(ws, f) + f(w),
{
    assert(ws.push(w).drop_last() =~= ws);
}

pub proof fn lemma_sum_take(ws: Seq<WorkerInfo>, n: int, f: spec_fn(WorkerInfo) -> nat)
    requires
        0 <= n <= ws.len(),
    ensures
        sum_over(ws.take(n), f) <= sum_over(ws, f),
    decreases ws.len() - n,
{
    if n < ws.len() {
        lemma_sum_take(ws, n + 1, f);
        assert(ws.take(n + 1) =~= ws.take(n).push(ws[n]));
        lemma_sum_push(ws.take(n), ws[n], f);
    } else {
        assert(ws.take(n) =~= ws);
    }
}

pub open spec fn cores() -> spec_fn(WorkerInfo) -> nat {
    |w: WorkerInfo| w.total_cores as nat
}

pub open spec fn busy() -> spec_fn(WorkerInfo) -> nat {
    |w: WorkerInfo| busy_cores(w)
}

/// The bytes a second that a worker sends and receives.
pub open spec fn traffic() -> spec_fn(WorkerInfo) -> nat {
    |w: WorkerInfo| (w.net_rx_rate + w.net_tx_rate) as nat
}

pub proof fn lemma_busy_at_most_cores(ws: Seq<WorkerInfo>)
    ensures
        sum_over(ws, busy()) <= sum_over(ws, cores()),
    decreases ws.len(),
{
    if ws.len() > 0 {
        lemma_busy_at_most_cores(ws.drop_last());
    }
}

/// The controller that a worker reports to.
pub open spec fn controller_of(w: WorkerInfo) -> Seq<char> {
    match w.controller_id {
        Some(id) => id@,
        None => "unassigned"@,
    }
}

/// The name of the group that a worker belongs to: its controller, or the cluster as a whole.
pub open spec fn name_in(w: WorkerInfo, by_controller: bool) -> Seq<char> {
    if by_controller {
        controller_of(w)
    } else {
        "cluster aggregate"@
    }
}

fn name_of(w: &WorkerInfo, by_controller: bool) -> (r: String)
    ensures
        r@ == name_in(*w, by_controller),
{
    if by_controller {
        match &w.controller_id {
            Some(id) => id.clone(),
            None => "unassigned".to_string(),
        }
    } else {
        "cluster aggregate".to_string()
    }
}

/// What is told of a group of workers.
pub ghost struct GroupView {
    pub name: Seq<char>,
    pub state: WorkerVisualState,
    pub count: nat,
    pub total_cores: nat,
    pub busy_cores: nat,
    pub activity: nat,
}

/// The workers of one state in one group.
pub open spec fn members(
    ws: Seq<WorkerInfo>,
    by_controller: bool,
    name: Seq<char>,
    state: WorkerVisualState,
) -> Seq<WorkerInfo> {
    ws.filter(|w: WorkerInfo| name_in(w, by_controller) == name && visual_state(w) == state)
}

/// What is to be told of the workers of one state in one group.
pub open spec fn tally(
    ws: Seq<WorkerInfo>,
    by_controller: bool,
    name: Seq<char>,
    state: WorkerVisualState,
) -> GroupView {
    let m = members(ws, by_controller, name, state);
    GroupView {
        name,
        state,
        count: m.len(),
        total_cores: sum_over(m, cores()),
        busy_cores: sum_over(m, busy()),
        activity: sum_over(m, traffic()),
    }
}

/// A group stands before another: by name, and among groups of one name by state.
pub open spec fn before(a: GroupView, b: GroupView) -> bool {
    if a.name == b.name {
        a.state.rank() < b.state.rank()
    } else {
        text_le(a.name, b.name)
    }
}

pub open spec fn has_group(gs: Seq<GroupView>, name: Seq<char>, state: WorkerVisualState) -> bool {
    exists|i: int| 0 <= i < gs.len() && (#[trigger] gs[i]).name == name && gs[i].state == state
}

/// The groups of a cluster: in order, each once, each with at least one worker and with the
/// exact figures of its workers, and no worker left out.
pub open spec fn is_grouping(gs: Seq<GroupView>, ws: Seq<WorkerInfo>, by_controller: bool) -> bool {
    &&& forall|i: int, j: int| 0 <= i < j < gs.len() ==> before(#[trigger] gs[i], #[trigger] gs[j])
    &&& forall|i: int|
        0 <= i < gs.len() ==> (#[trigger] gs[i]).count > 0 && gs[i] == tally(
            ws,
            by_controller,
            gs[i].name,
            gs[i].state,
        )
    &&& forall|k: int|
        0 <= k < ws.len() ==> has_group(
            gs,
            name_in(#[trigger] ws[k], by_controller),
            visual_state(ws[k]),
        )
}

/// A cluster is grouped in one way only.
pub proof fn law_grouping_is_unique(
    a: Seq<GroupView>,
    b: Seq<GroupView>,
    ws: Seq<WorkerInfo>,
    by_controller: bool,
)
    requires
        is_grouping(a, ws, by_controller),
        is_grouping(b, ws, by_controller),
    ensures
        a == b,
{
    lemma_same_prefix(a, b, ws, by_controller, a.len() as int);
    lemma_same_prefix(b, a, ws, by_controller, b.len() as int);
    assert(a =~= b);
}

proof fn lemma_group_of_member(
    gs: Seq<GroupView>,
    other: Seq<GroupView>,
    ws: Seq<WorkerInfo>,
    by_controller: bool,
    i: int,
)
    requires
        is_grouping(gs, ws, by_controller),
        is_grouping(other, ws, by_controller),
        0 <= i < gs.len(),
    ensures
        has_group(other, gs[i].name, gs[i].state),
{
    let p = |w: WorkerInfo|
        name_in(w, by_controller) == gs[i].name && visual_state(w) == gs[i].state;
    assert(ws.filter(p) == members(ws, by_controller, gs[i].name, gs[i].state));
    let k = lemma_kept_some(ws, p);
    assert(has_group(other, name_in(ws[k], by_controller), visual_state(ws[k])));
}

proof fn lemma_before_is_strict(a: GroupView, b: GroupView)
    requires
        before(a, b),
    ensures
        !before(b, a),
        !(a.name == b.name && a.state == b.state),
{
    law_text_order_is_total(a.name, b.name);
}

/// Up to `n`, two groupings of a cluster agree.
proof fn lemma_same_prefix(
    a: Seq<GroupView>,
    b: Seq<GroupView>,
    ws: Seq<WorkerInfo>,
    by_controller: bool,
    n: int,
)
    requires
        is_grouping(a, ws, by_controller),
        is_grouping(b, ws, by_controller),
        0 <= n <= a.len(),
    ensures
        n <= b.len(),
        forall|i: int| 0 <= i < n ==> #[trigger] a[i] == b[i],
    decreases n,
{
    if n > 0 {
        let i = n - 1;
        lemma_same_prefix(a, b, ws, by_controller, i);
        lemma_group_of_member(a, b, ws, by_controller, i);
        let j = choose|j: int|
            0 <= j < b.len() && (#[trigger] b[j]).name == a[i].name && b[j].state == a[i].state;
        if j < i {
            assert(a[j] == b[j]);
            lemma_before_is_strict(a[j], a[i]);
        }
        assert(i < b.len());
        lemma_group_of_member(b, a, ws, by_controller, i);
        let k = choose|k: int|
            0 <= k < a.len() && (#[trigger] a[k]).name == b[i].name && a[k].state == b[i].state;
        if k < i {
            assert(a[k] == b[k]);
            lemma_before_is_strict(b[k], b[i]);
        }
        if j > i {
            assert(before(b[i], b[j]));
            if k > i {
                assert(before(a[i], a[k]));
                lemma_before_is_strict(b[i], b[j]);
            } else {
                assert(k == i);
                lemma_before_is_strict(b[i], b[j]);
            }
        }
        assert(j == i);
    }
}

/// A group of workers, with its figures.
pub struct WorkerAggregate {
    pub name: String,
    pub state: WorkerVisualState,
    pub count: usize,
    pub total_cores: usize,
    pub busy_cores: usize,
    pub activity: u64,
}

impl View for WorkerAggregate {
    type V = GroupView;

    open spec fn view(&self) -> GroupView {
        GroupView {
            name: self.name@,
            state: self.state,
            count: self.count as nat,
            total_cores: self.total_cores as nat,
            busy_cores: self.busy_cores as nat,
            activity: self.activity as nat,
        }
    }
}

pub open spec fn group_views(gs: Seq<WorkerAggregate>) -> Seq<GroupView> {
    Seq::new(gs.len(), |i: int| gs[i]@)
}

/// Whether the group stands before the place of a name and a state.
fn stands_before(g: &WorkerAggregate, name: &str, state: WorkerVisualState) -> (r: bool)
    ensures
        r == (if g.name@ == name@ {
            g.state.rank() < state.rank()
        } else {
            text_le(g.name@, name@)
        }),
{
    if str_eq(&g.name, name) {
        g.state.place() < state.place()
    } else {
        text_at_most(&g.name, name)
    }
}

proof fn lemma_members_push(
    ws: Seq<WorkerInfo>,
    w: WorkerInfo,
    by_controller: bool,
    name: Seq<char>,
    state: WorkerVisualState,
)
    ensures
        ({
            let old = members(ws, by_controller, name, state);
            let new = members(ws.push(w), by_controller, name, state);
            if name_in(w, by_controller) == name && visual_state(w) == state {
                new == old.push(w)
            } else {
                new == old
            }
        }),
{
    reveal(Seq::filter);
    assert(ws.push(w).drop_last() =~= ws);
}

/// The figures of a group after one more worker of the cluster has been counted.
proof fn lemma_tally_push(
    ws: Seq<WorkerInfo>,
    w: WorkerInfo,
    by_controller: bool,
    name: Seq<char>,
    state: WorkerVisualState,
)
    ensures
        ({
            let old = tally(ws, by_controller, name, state);
            let new = tally(ws.push(w), by_controller, name, state);
            if name_in(w, by_controller) == name && visual_state(w) == state {
                &&& new.count == old.count + 1
                &&& new.total_cores == old.total_cores + w.total_cores
                &&& new.busy_cores == old.busy_cores + busy_cores(w)
                &&& new.activity == old.activity + w.net_rx_rate + w.net_tx_rate
            } else {
                new == old
            }
        }),
{
    lemma_members_push(ws, w, by_controller, name, state);
    let m = members(ws, by_controller, name, state);
    lemma_sum_push(m, w, cores());
    lemma_sum_push(m, w, busy());
    lemma_sum_push(m, w, traffic());
}

/// The figures of a group only grow as workers are counted.
proof fn lemma_tally_take(
    ws: Seq<WorkerInfo>,
    n: int,
    by_controller: bool,
    name: Seq<char>,
    state: WorkerVisualState,
)
    requires
        0 <= n <= ws.len(),
    ensures
        ({
            let part = tally(ws.take(n), by_controller, name, state);
            let whole = tally(ws, by_controller, name, state);
            &&& part.count <= whole.count
            &&& part.total_cores <= whole.total_cores
            &&& part.activity <= whole.activity
        }),
    decreases ws.len() - n,
{
    if n < ws.len() {
        lemma_tally_take(ws, n + 1, by_controller, name, state);
        assert(ws.take(n + 1) =~= ws.take(n).push(ws[n]));
        lemma_tally_push(ws.take(n), ws[n], by_controller, name, state);
    } else {
        assert(ws.take(n) =~= ws);
    }
}

/// The cores and the traffic of each group can be counted.
pub open spec fn groups_fit(ws: Seq<WorkerInfo>, by_controller: bool) -> bool {
    forall|name: Seq<char>, state: WorkerVisualState|
        #![trigger tally(ws, by_controller, name, state)]
        tally(ws, by_controller, name, state).total_cores <= usize::MAX && tally(
            ws,
            by_controller,
            name,
            state,
        ).activity <= u64::MAX
}

/// A group of which no worker has been counted stands at zero.
proof fn lemma_no_members(
    gs: Seq<GroupView>,
    ws: Seq<WorkerInfo>,
    by_controller: bool,
    name: Seq<char>,
    state: WorkerVisualState,
)
    requires
        is_grouping(gs, ws, by_controller),
        !has_group(gs, name, state),
    ensures
        members(ws, by_controller, name, state).len() == 0,
{
    let p = |w: WorkerInfo| name_in(w, by_controller) == name && visual_state(w) == state;
    assert(members(ws, by_controller, name, state) == ws.filter(p));
    if ws.filter(p).len() > 0 {
        let k = lemma_kept_some(ws, p);
        assert(has_group(gs, name_in(ws[k], by_controller), visual_state(ws[k])));
    }
}

/// The grouping after one more worker, if the groups before `pos` stand before its own, those
/// from `pos` on do not, and `new` is its own group.
#[verifier::rlimit(60)]
#[verifier::spinoff_prover]
proof fn lemma_grouping_step(
    gs: Seq<GroupView>,
    ws: Seq<WorkerInfo>,
    w: WorkerInfo,
    by_controller: bool,
    pos: int,
    present: bool,
    new: GroupView,
)
    requires
        is_grouping(gs, ws, by_controller),
        0 <= pos <= gs.len(),
        new == tally(ws.push(w), by_controller, name_in(w, by_controller), visual_state(w)),
        new.count > 0,
        forall|j: int| 0 <= j < pos ==> before(#[trigger] gs[j], new),
        present ==> pos < gs.len() && gs[pos].name == new.name && gs[pos].state == new.state,
        !present ==> forall|j: int| pos <= j < gs.len() ==> before(new, #[trigger] gs[j]),
    ensures
        present ==> is_grouping(gs.update(pos, new), ws.push(w), by_controller),
        !present ==> is_grouping(gs.insert(pos, new), ws.push(w), by_controller),
{
    let r = if present {
        gs.update(pos, new)
    } else {
        gs.insert(pos, new)
    };
    let off: int = if present {
        0
    } else {
        1
    };
    if !present {
        gs.insert_ensures(pos, new);
    }
    assert forall|j: int| pos < j < r.len() implies #[trigger] r[j] == gs[j - off] && before(
        new,
        gs[j - off],
    ) by {
        if present {
            assert(before(gs[pos], gs[j]));
        }
    }
    assert forall|i: int| 0 <= i < r.len() implies (#[trigger] r[i]).count > 0 && r[i] == tally(
        ws.push(w),
        by_controller,
        r[i].name,
        r[i].state,
    ) by {
        if i != pos {
            let g = if i < pos {
                gs[i]
            } else {
                gs[i - off]
            };
            assert(r[i] == g);
            if i < pos {
                lemma_before_is_strict(g, new);
            } else {
                lemma_before_is_strict(new, g);
            }
            lemma_tally_push(ws, w, by_controller, g.name, g.state);
        }
    }
    assert forall|i: int, j: int| 0 <= i < j < r.len() implies before(
        #[trigger] r[i],
        #[trigger] r[j],
    ) by {
        if i < pos && j < pos {
            assert(before(gs[i], gs[j]));
        } else if i < pos && j > pos {
            assert(before(gs[i], gs[j - off]));
        } else if i > pos {
            assert(before(gs[i - off], gs[j - off]));
        }
    }
    assert forall|k: int| 0 <= k < ws.push(w).len() implies has_group(
        r,
        name_in(#[trigger] ws.push(w)[k], by_controller),
        visual_state(ws.push(w)[k]),
    ) by {
        if k == ws.len() {
            assert(r[pos].name == new.name);
        } else {
            let name = name_in(ws[k], by_controller);
            let state = visual_state(ws[k]);
            assert(has_group(gs, name, state));
            let i = choose|i: int|
                0 <= i < gs.len() && (#[trigger] gs[i]).name == name && gs[i].state == state;
            if i < pos {
                assert(r[i].name == name && r[i].state == state);
            } else if present && i == pos {
                assert(r[pos].name == name && r[pos].state == state);
            } else {
                assert(r[i + off].name == name && r[i + off].state == state);
            }
        }
    }
}

/// The groups of a cluster, by controller and state or by state alone, if their figures can be
/// counted.
pub fn group_workers(workers: &Vec<WorkerInfo>, by_controller: bool) -> (r: Option<
    Vec<WorkerAggregate>,
>)
    ensures
        r is Some <==> groups_fit(workers@, by_controller),
        r matches Some(groups) ==> is_grouping(group_views(groups@), workers@, by_controller),
{
    let mut r: Vec<WorkerAggregate> = Vec::new();
    let mut i: usize = 0;
    let n: usize = workers.len();
    assert(workers@.take(0) =~= Seq::<WorkerInfo>::empty());
    while i < n
        invariant
            i <= n,
            n == workers@.len(),
            is_grouping(group_views(r@), workers@.take(i as int), by_controller),
        decreases n - i,
    {
        let w: &WorkerInfo = &workers[i];
        let name: String = name_of(w, by_controller);
        let state: WorkerVisualState = worker_visual_state(w);
        let ghost seen = workers@.take(i as int);
        let ghost gs = group_views(r@);
        let ghost new = tally(workers@.take(i + 1), by_controller, name@, state);
        proof {
            assert(workers@.take(i + 1) =~= seen.push(*w));
            lemma_tally_push(seen, *w, by_controller, name@, state);
            lemma_tally_take(workers@, i + 1, by_controller, name@, state);
            lemma_busy_at_most_cores(members(workers@.take(i + 1), by_controller, name@, state));
            let p = |w: WorkerInfo| name_in(w, by_controller) == name@ && visual_state(w) == state;
            assert(members(workers@.take(i + 1), by_controller, name@, state)
                == workers@.take(i + 1).filter(p));
            workers@.take(i + 1).lemma_filter_len(p);
        }
        let moved: u64 = match w.net_rx_rate.checked_add(w.net_tx_rate) {
            Some(moved) => moved,
            None => {
                return None;
            },
        };
        let mut pos: usize = 0;
        while pos < r.len() && stands_before(&r[pos], &name, state)
            invariant
                pos <= r@.len(),
                gs == group_views(r@),
                new.name == name@,
                new.state == state,
                forall|j: int| 0 <= j < pos ==> before(#[trigger] gs[j], new),
            decreases r@.len() - pos,
        {
            assert(gs[pos as int] == r@[pos as int]@);
            pos = pos + 1;
        }
        let ghost old_groups = r@;
        if pos < r.len() && str_eq(&r[pos].name, &name) && r[pos].state == state {
            assert(gs[pos as int] == r@[pos as int]@);
            let g: WorkerAggregate = r.remove(pos);
            let total_cores: usize = match g.total_cores.checked_add(w.total_cores) {
                Some(total) => total,
                None => {
                    return None;
                },
            };
            let activity: u64 = match g.activity.checked_add(moved) {
                Some(total) => total,
                None => {
                    return None;
                },
            };
            let g = WorkerAggregate {
                name: g.name,
                state,
                count: g.count + 1,
                total_cores,
                busy_cores: g.busy_cores + busy_cores_of(w),
                activity,
            };
            let ghost added = g@;
            r.insert(pos, g);
            proof {
                assert(added == new);
                assert(group_views(r@) =~= gs.update(pos as int, new));
                lemma_grouping_step(gs, seen, *w, by_controller, pos as int, true, new);
            }
        } else {
            proof {
                assert forall|j: int| pos <= j < gs.len() implies before(new, #[trigger] gs[j]) by {
                    assert(gs[pos as int] == r@[pos as int]@);
                    law_text_order_is_total(new.name, gs[pos as int].name);
                    assert(before(new, gs[pos as int]));
                    if j > pos {
                        assert(before(gs[pos as int], gs[j]));
                        lemma_before_is_transitive(new, gs[pos as int], gs[j]);
                    }
                }
                assert forall|j: int| 0 <= j < gs.len() implies !((#[trigger] gs[j]).name == name@
                    && gs[j].state == state) by {
                    if j < pos {
                        lemma_before_is_strict(gs[j], new);
                    } else {
                        lemma_before_is_strict(new, gs[j]);
                    }
                }
                lemma_no_members(gs, seen, by_controller, name@, state);
                lemma_empty_tally(seen, by_controller, name@, state);
            }
            let g = WorkerAggregate {
                name,
                state,
                count: 1,
                total_cores: w.total_cores,
                busy_cores: busy_cores_of(w),
                activity: moved,
            };
            let ghost added = g@;
            r.insert(pos, g);
            proof {
                assert(added == new);
                old_groups.insert_ensures(pos as int, g);
                gs.insert_ensures(pos as int, new);
                assert(group_views(r@) =~= gs.insert(pos as int, new));
                lemma_grouping_step(gs, seen, *w, by_controller, pos as int, false, new);
            }
        }
        i = i + 1;
    }
    assert(workers@.take(n as int) =~= workers@);
    proof {
        let gs = group_views(r@);
        assert forall|name: Seq<char>, state: WorkerVisualState|
            #![trigger tally(workers@, by_controller, name, state)]
            tally(workers@, by_controller, name, state).total_cores <= usize::MAX && tally(
                workers@,
                by_controller,
                name,
                state,
            ).activity <= u64::MAX by {
            if has_group(gs, name, state) {
                let i = choose|i: int|
                    0 <= i < gs.len() && (#[trigger] gs[i]).name == name && gs[i].state == state;
                assert(gs[i] == r@[i]@);
            } else {
                lemma_no_members(gs, workers@, by_controller, name, state);
                lemma_empty_tally(workers@, by_controller, name, state);
            }
        }
    }
    Some(r)
}

proof fn lemma_before_is_transitive(a: GroupView, b: GroupView, c: GroupView)
    requires
        before(a, b),
        before(b, c),
    ensures
        before(a, c),
{
    law_text_order_is_total(a.name, b.name);
    law_text_order_is_total(b.name, c.name);
    law_text_order_is_total(a.name, c.name);
    if a.name != b.name && b.name != c.name {
        law_text_order_is_transitive(a.name, b.name, c.name);
    }
}

proof fn lemma_empty_tally(
    ws: Seq<WorkerInfo>,
    by_controller: bool,
    name: Seq<char>,
    state: WorkerVisualState,
)
    requires
        members(ws, by_controller, name, state).len() == 0,
    ensures
        tally(ws, by_controller, name, state) == (GroupView {
            name,
            state,
            count: 0,
            total_cores: 0,
            busy_cores: 0,
            activity: 0,
        }),
{
}

/// The sum of a figure over a list of groups.
pub open spec fn sum_groups(gs: Seq<GroupView>, f: spec_fn(GroupView) -> nat) -> nat
    decreases gs.len(),
{
    if gs.len() == 0 {
        0
    } else {
        sum_groups(gs.drop_last(), f) + f(gs.last())
    }
}

/// The amount `f` of the workers of a group.
spec fn share(
    ws: Seq<WorkerInfo>,
    by_controller: bool,
    f: spec_fn(WorkerInfo) -> nat,
) -> spec_fn(GroupView) -> nat {
    |g: GroupView| sum_over(members(ws, by_controller, g.name, g.state), f)
}

proof fn lemma_share_step(
    gs: Seq<GroupView>,
    ws: Seq<WorkerInfo>,
    w: WorkerInfo,
    by_controller: bool,
    f: spec_fn(WorkerInfo) -> nat,
    p: int,
    n: int,
)
    requires
        forall|i: int, j: int| 0 <= i < j < gs.len() ==> before(#[trigger] gs[i], #[trigger] gs[j]),
        0 <= p < gs.len(),
        gs[p].name == name_in(w, by_controller),
        gs[p].state == visual_state(w),
        0 <= n <= gs.len(),
    ensures
        sum_groups(gs.take(n), share(ws.push(w), by_controller, f)) == sum_groups(
            gs.take(n),
            share(ws, by_controller, f),
        ) + (if n > p {
            f(w)
        } else {
            0
        }),
    decreases n,
{
    if n > 0 {
        lemma_share_step(gs, ws, w, by_controller, f, p, n - 1);
        let g = gs[n - 1];
        assert(gs.take(n).drop_last() =~= gs.take(n - 1));
        assert(gs.take(n).last() == g);
        lemma_members_push(ws, w, by_controller, g.name, g.state);
        lemma_sum_push(members(ws, by_controller, g.name, g.state), w, f);
        if n - 1 < p {
            lemma_before_is_strict(g, gs[p]);
        } else if n - 1 > p {
            lemma_before_is_strict(gs[p], g);
        }
    }
}

proof fn lemma_no_share(
    gs: Seq<GroupView>,
    by_controller: bool,
    f: spec_fn(WorkerInfo) -> nat,
)
    ensures
        sum_groups(gs, share(Seq::empty(), by_controller, f)) == 0,
    decreases gs.len(),
{
    if gs.len() > 0 {
        lemma_no_share(gs.drop_last(), by_controller, f);
        reveal(Seq::filter);
        let g = gs.last();
        assert(members(Seq::empty(), by_controller, g.name, g.state).len() == 0);
    }
}

proof fn lemma_shares_add_up(
    gs: Seq<GroupView>,
    ws: Seq<WorkerInfo>,
    by_controller: bool,
    f: spec_fn(WorkerInfo) -> nat,
)
    requires
        forall|i: int, j: int| 0 <= i < j < gs.len() ==> before(#[trigger] gs[i], #[trigger] gs[j]),
        forall|k: int|
            0 <= k < ws.len() ==> has_group(
                gs,
                name_in(#[trigger] ws[k], by_controller),
                visual_state(ws[k]),
            ),
    ensures
        sum_groups(gs, share(ws, by_controller, f)) == sum_over(ws, f),
    decreases ws.len(),
{
    if ws.len() == 0 {
        assert(ws =~= Seq::<WorkerInfo>::empty());
        lemma_no_share(gs, by_controller, f);
    } else {
        let rest = ws.drop_last();
        let w = ws.last();
        assert(ws =~= rest.push(w));
        assert forall|k: int| 0 <= k < rest.len() implies has_group(
            gs,
            name_in(#[trigger] rest[k], by_controller),
            visual_state(rest[k]),
        ) by {
            assert(rest[k] == ws[k]);
        }
        lemma_shares_add_up(gs, rest, by_controller, f);
        assert(has_group(
            gs,
            name_in(ws[ws.len() - 1], by_controller),
            visual_state(ws[ws.len() - 1]),
        ));
        let p = choose|p: int|
            0 <= p < gs.len() && (#[trigger] gs[p]).name == name_in(w, by_controller)
                && gs[p].state == visual_state(w);
        lemma_share_step(gs, rest, w, by_controller, f, p, gs.len() as int);
        assert(gs.take(gs.len() as int) =~= gs);
        lemma_sum_push(rest, w, f);
    }
}

proof fn lemma_sum_groups_same(
    gs: Seq<GroupView>,
    f: spec_fn(GroupView) -> nat,
    g: spec_fn(GroupView) -> nat,
)
    requires
        forall|i: int| 0 <= i < gs.len() ==> f(#[trigger] gs[i]) == g(gs[i]),
    ensures
        sum_groups(gs, f) == sum_groups(gs, g),
    decreases gs.len(),
{
    if gs.len() > 0 {
        assert(f(gs[gs.len() - 1]) == g(gs[gs.len() - 1]));
        assert forall|i: int| 0 <= i < gs.drop_last().len() implies f(
            #[trigger] gs.drop_last()[i],
        ) == g(gs.drop_last()[i]) by {
            assert(f(gs[i]) == g(gs[i]));
        }
        lemma_sum_groups_same(gs.drop_last(), f, g);
    }
}

proof fn lemma_sum_of_ones(ws: Seq<WorkerInfo>)
    ensures
        sum_over(ws, |w: WorkerInfo| 1) == ws.len(),
    decreases ws.len(),
{
    if ws.len() > 0 {
        lemma_sum_of_ones(ws.drop_last());
    }
}

/// The groups of a cluster hold together what the cluster holds: its workers, its cores, those
/// in use, and its traffic.
pub proof fn law_groups_conserve_the_cluster(
    gs: Seq<GroupView>,
    ws: Seq<WorkerInfo>,
    by_controller: bool,
)
    requires
        is_grouping(gs, ws, by_controller),
    ensures
        sum_groups(gs, |g: GroupView| g.count) == ws.len(),
        sum_groups(gs, |g: GroupView| g.total_cores) == sum_over(ws, cores()),
        sum_groups(gs, |g: GroupView| g.busy_cores) == sum_over(ws, busy()),
        sum_groups(gs, |g: GroupView| g.activity) == sum_over(ws, traffic()),
{
    let one = |w: WorkerInfo| 1nat;
    lemma_shares_add_up(gs, ws, by_controller, one);
    lemma_shares_add_up(gs, ws, by_controller, cores());
    lemma_shares_add_up(gs, ws, by_controller, busy());
    lemma_shares_add_up(gs, ws, by_controller, traffic());
    let count = |g: GroupView| g.count;
    assert forall|i: int| 0 <= i < gs.len() implies count(#[trigger] gs[i]) == share(
        ws,
        by_controller,
        one,
    )(gs[i]) by {
        lemma_sum_of_ones(members(ws, by_controller, gs[i].name, gs[i].state));
    }
    lemma_sum_of_ones(ws);
    lemma_sum_groups_same(gs, count, share(ws, by_controller, one));
    lemma_sum_groups_same(
        gs,
        |g: GroupView| g.total_cores,
        share(ws, by_controller, cores()),
    );
    lemma_sum_groups_same(gs, |g: GroupView| g.busy_cores, share(ws, by_controller, busy()));
    lemma_sum_groups_same(gs, |g: GroupView| g.activity, share(ws, by_controller, traffic()));
}

/// A mark of the picture.
pub struct ComputeVisualItem {
    pub slot: OrbitSlot,
    pub label: String,
    pub detail: String,
    pub state: WorkerVisualState,
    pub count: usize,
    pub activity: u64,
}

/// What a mark shows, and where.
pub ghost struct ItemView {
    pub slot: (nat, nat, nat),
    pub label: Seq<char>,
    pub detail: Seq<char>,
    pub state: WorkerVisualState,
    pub count: nat,
    pub activity: nat,
}

impl View for ComputeVisualItem {
    type V = ItemView;

    open spec fn view(&self) -> ItemView {
        ItemView {
            slot: (
                self.slot.ring_index as nat,
                self.slot.ring_total as nat,
                self.slot.radius as nat,
            ),
            label: self.label@,
            detail: self.detail@,
            state: self.state,
            count: self.count as nat,
            activity: self.activity as nat,
        }
    }
}

pub open spec fn item_views(items: Seq<ComputeVisualItem>) -> Seq<ItemView> {
    Seq::new(items.len(), |i: int| items[i]@)
}

/// The mark of the `i`th of `n` workers.
pub open spec fn worker_item(w: WorkerInfo, i: nat, n: nat) -> ItemView {
    ItemView {
        slot: slot_of(i, n),
        label: w.hostname@,
        detail: if w.online {
            w.cpu_percent@ + "% CPU"@
        } else {
            "OFFLINE"@
        },
        state: visual_state(w),
        count: 1,
        activity: (w.net_rx_rate + w.net_tx_rate) as nat,
    }
}

/// The mark of the `i`th of `n` groups.
pub open spec fn group_item(g: GroupView, i: nat, n: nat) -> ItemView {
    ItemView {
        slot: slot_of(i, n),
        label: decimal(g.count) + " "@ + g.state.name(),
        detail: g.name + " · "@ + decimal(g.busy_cores) + "/"@ + decimal(g.total_cores)
            + " cores"@,
        state: g.state,
        count: g.count,
        activity: g.activity,
    }
}

pub open spec fn group_items(gs: Seq<GroupView>) -> Seq<ItemView> {
    Seq::new(gs.len(), |i: int| group_item(gs[i], i as nat, gs.len()))
}

/// Whether a cluster is drawn by controller: at most 500 workers, in at most 32 groups. Of a
/// larger one only the states are told apart.
pub open spec fn drawn_by_controller(ws: Seq<WorkerInfo>, gs: Seq<GroupView>) -> bool {
    ws.len() <= 500 && is_grouping(gs, ws, true) && gs.len() <= 32
}

/// The marks of the groups of a large cluster.
pub open spec fn drawn_in_groups(items: Seq<ItemView>, ws: Seq<WorkerInfo>) -> bool {
    if exists|gs: Seq<GroupView>| #[trigger] drawn_by_controller(ws, gs) {
        exists|gs: Seq<GroupView>| #[trigger] is_grouping(gs, ws, true) && items == group_items(gs)
    } else {
        exists|gs: Seq<GroupView>| #[trigger] is_grouping(gs, ws, false) && items == group_items(gs)
    }
}

fn draw_group(g: WorkerAggregate, i: usize, n: usize) -> (r: ComputeVisualItem)
    ensures
        r@ == group_item(g@, i as nat, n as nat),
{
    let mut label: String = decimal_usize(g.count);
    label.append(" ");
    label.append(g.state.label());
    let state: WorkerVisualState = g.state;
    let mut detail: String = g.name;
    detail.append(" · ");
    detail.append(&decimal_usize(g.busy_cores));
    detail.append("/");
    detail.append(&decimal_usize(g.total_cores));
    detail.append(" cores");
    ComputeVisualItem {
        slot: orbital_position(i, n),
        label,
        detail,
        state,
        count: g.count,
        activity: g.activity,
    }
}

fn draw_groups(groups: Vec<WorkerAggregate>) -> (r: Vec<ComputeVisualItem>)
    ensures
        item_views(r@) == group_items(group_views(groups@)),
{
    let ghost all = groups@;
    let n: usize = groups.len();
    let mut rest: Vec<WorkerAggregate> = reversed(groups);
    let mut r: Vec<ComputeVisualItem> = Vec::new();
    assert(all.skip(0) =~= all);
    let mut i: usize = 0;
    while i < n
        invariant
            i <= n,
            n == all.len(),
            rest@ == all.skip(i as int).reverse(),
            r@.len() == i,
            forall|k: int|
                0 <= k < i ==> (#[trigger] r@[k])@ == group_item(all[k]@, k as nat, n as nat),
        decreases n - i,
    {
        let g: WorkerAggregate = take_first(&mut rest, Ghost(all), Ghost(i as int));
        assert(g == all[i as int]);
        r.push(draw_group(g, i, n));
        i = i + 1;
    }
    assert(item_views(r@) =~= group_items(group_views(all)));
    r
}

/// The figures that the picture of a cluster shows can be counted.
pub open spec fn drawable(ws: Seq<WorkerInfo>) -> bool {
    if ws.len() <= 32 {
        forall|i: int| 0 <= i < ws.len() ==> traffic()(#[trigger] ws[i]) <= u64::MAX
    } else {
        groups_fit(ws, true) && ((exists|gs: Seq<GroupView>| #[trigger]
            drawn_by_controller(ws, gs)) || groups_fit(ws, false))
    }
}

/// Whether the figures that the picture of a cluster shows can be counted.
pub fn can_draw(workers: &Vec<WorkerInfo>) -> (r: bool)
    ensures
        r == drawable(workers@),
{
    match try_draw(workers) {
        Some(_) => true,
        None => false,
    }
}

/// The mark of each worker, if its traffic can be counted.
fn draw_workers(workers: &Vec<WorkerInfo>) -> (r: Option<Vec<ComputeVisualItem>>)
    ensures
        r is Some <==> forall|i: int|
            0 <= i < workers@.len() ==> traffic()(#[trigger] workers@[i]) <= u64::MAX,
        r matches Some(items) ==> item_views(items@) == Seq::new(
            workers@.len(),
            |i: int| worker_item(workers@[i], i as nat, workers@.len()),
        ),
{
    let n: usize = workers.len();
    let mut r: Vec<ComputeVisualItem> = Vec::new();
    let mut i: usize = 0;
    while i < n
        invariant
            i <= n,
            n == workers@.len(),
            r@.len() == i,
            forall|k: int| 0 <= k < i ==> traffic()(#[trigger] workers@[k]) <= u64::MAX,
            forall|k: int|
                0 <= k < i ==> (#[trigger] r@[k])@ == worker_item(workers@[k], k as nat, n as nat),
        decreases n - i,
    {
        let w: &WorkerInfo = &workers[i];
        let activity: u64 = match w.net_rx_rate.checked_add(w.net_tx_rate) {
            Some(activity) => activity,
            None => {
                assert(traffic()(workers@[i as int]) > u64::MAX);
                return None;
            },
        };
        let detail: String = if w.online {
            let mut detail: String = w.cpu_percent.clone();
            detail.append("% CPU");
            detail
        } else {
            "OFFLINE".to_string()
        };
        r.push(
            ComputeVisualItem {
                slot: orbital_position(i, n),
                label: w.hostname.clone(),
                detail,
                state: worker_visual_state(w),
                count: 1,
                activity,
            },
        );
        i = i + 1;
    }
    assert(item_views(r@) =~= Seq::new(
        workers@.len(),
        |i: int| worker_item(workers@[i], i as nat, workers@.len()),
    ));
    Some(r)
}

/// The picture of a cluster, if its figures can be counted.
fn try_draw(workers: &Vec<WorkerInfo>) -> (r: Option<Vec<ComputeVisualItem>>)
    ensures
        r is Some <==> drawable(workers@),
        r matches Some(items) ==> if workers@.len() <= 32 {
            item_views(items@) == Seq::new(
                workers@.len(),
                |i: int| worker_item(workers@[i], i as nat, workers@.len()),
            )
        } else {
            drawn_in_groups(item_views(items@), workers@)
        },
{
    let n: usize = workers.len();
    if n <= 32 {
        return draw_workers(workers);
    }
    let by_controller: Vec<WorkerAggregate> = match group_workers(workers, true) {
        Some(groups) => groups,
        None => {
            return None;
        },
    };
    let ghost named = group_views(by_controller@);
    if n <= 500 && by_controller.len() <= 32 {
        assert(drawn_by_controller(workers@, named));
        Some(draw_groups(by_controller))
    } else {
        proof {
            assert forall|gs: Seq<GroupView>| !#[trigger] drawn_by_controller(workers@, gs) by {
                if drawn_by_controller(workers@, gs) {
                    law_grouping_is_unique(gs, named, workers@, true);
                }
            }
        }
        match group_workers(workers, false) {
            Some(groups) => Some(draw_groups(groups)),
            None => None,
        }
    }
}

/// The marks of the compute pool: one for each of up to 32 workers, and one for each group of
/// more.
pub fn build_compute_visual_items(workers: &Vec<WorkerInfo>) -> (r: Vec<ComputeVisualItem>)
    requires
        drawable(workers@),
    ensures
        workers@.len() <= 32 ==> item_views(r@) == Seq::new(
            workers@.len(),
            |i: int| worker_item(workers@[i], i as nat, workers@.len()),
        ),
        workers@.len() > 32 ==> drawn_in_groups(item_views(r@), workers@),
{
    match try_draw(workers) {
        Some(items) => items,
        None => Vec::new(),
    }
}

/// Every large cluster is drawn with few marks: at most 32 by controller, or one for each of the
/// four states.
pub proof fn law_large_clusters_take_few_marks(items: Seq<ItemView>, ws: Seq<WorkerInfo>)
    requires
        drawn_in_groups(items, ws),
    ensures
        items.len() <= 32,
{
    if exists|gs: Seq<GroupView>| #[trigger] drawn_by_controller(ws, gs) {
        let few = choose|gs: Seq<GroupView>| #[trigger] drawn_by_controller(ws, gs);
        let gs = choose|gs: Seq<GroupView>| #[trigger]
            is_grouping(gs, ws, true) && items == group_items(gs);
        law_grouping_is_unique(few, gs, ws, true);
    } else {
        let gs = choose|gs: Seq<GroupView>| #[trigger]
            is_grouping(gs, ws, false) && items == group_items(gs);
        assert forall|i: int| 0 <= i < gs.len() implies (#[trigger] gs[i]).name
            == "cluster aggregate"@ by {
            lemma_name_of_group(gs, ws, i);
        }
        if gs.len() > 4 {
            assert(before(gs[0], gs[1]) && before(gs[1], gs[2]) && before(gs[2], gs[3]) && before(
                gs[3],
                gs[4],
            ));
        }
    }
}

proof fn lemma_name_of_group(gs: Seq<GroupView>, ws: Seq<WorkerInfo>, i: int)
    requires
        is_grouping(gs, ws, false),
        0 <= i < gs.len(),
    ensures
        gs[i].name == "cluster aggregate"@,
{
    let p = |w: WorkerInfo| name_in(w, false) == gs[i].name && visual_state(w) == gs[i].state;
    assert(ws.filter(p) == members(ws, false, gs[i].name, gs[i].state));
    let k = lemma_kept_some(ws, p);
}

/// Whether the line to a mark is drawn as moving: more than five megabytes a second.
pub fn flows(activity: u64) -> (r: bool)
    ensures
        r == (activity > 5 * 1024 * 1024),
{
    activity > 5 * 1024 * 1024
}

/// What stands inside a mark: how many workers it is for, if more than one.
pub fn count_label(count: usize) -> (r: String)
    ensures
        r@ == if count > 1 {
            decimal(count as nat)
        } else {
            ""@
        },
{
    if count > 1 {
        decimal_usize(count)
    } else {
        "".to_string()
    }
}

/// A worker that is not online is shown as offline. One that is online is free where none of its
/// cores is in use, busy where all are, and partly busy in between.
pub proof fn law_workers_are_drawn_as_they_are(w: WorkerInfo)
    requires
        w.available_cores <= w.total_cores,
    ensures
        visual_state(w) == WorkerVisualState::Offline <==> !w.online,
        visual_state(w) == WorkerVisualState::Free <==> w.online && w.available_cores
            == w.total_cores,
        visual_state(w) == WorkerVisualState::Busy <==> w.online && w.available_cores == 0
            && w.total_cores > 0,
        visual_state(w) == WorkerVisualState::Partial <==> w.online && 0 < w.available_cores
            < w.total_cores,
{
}

/// The cores of a worker are those in use and those that are not; its traffic is what it receives
/// and what it sends.
pub proof fn law_cores_are_busy_or_available(w: WorkerInfo)
    ensures
        cores()(w) == w.total_cores,
        w.available_cores <= w.total_cores ==> busy()(w) + w.available_cores == cores()(w),
        w.available_cores > w.total_cores ==> busy()(w) == 0,
        traffic()(w) == w.net_rx_rate + w.net_tx_rate,
{
}

/// The states are told apart by their names, their squares and their colours.
pub proof fn law_states_are_told_apart(a: WorkerVisualState, b: WorkerVisualState)
    ensures
        a != b ==> a.name() != b.name() && a.square() != b.square() && a.fill_and_stroke().0
            != b.fill_and_stroke().0 && a.rank() != b.rank(),
        WorkerVisualState::Free.name() == "FREE"@ && WorkerVisualState::Free.square() == "free"@,
        WorkerVisualState::Partial.name() == "PARTIAL"@ && WorkerVisualState::Partial.square()
            == "partial"@,
        WorkerVisualState::Busy.name() == "BUSY"@ && WorkerVisualState::Busy.square() == "busy"@,
        WorkerVisualState::Offline.name() == "OFFLINE"@ && WorkerVisualState::Offline.square()
            == "offline"@,
{
    reveal_strlit("FREE");
    reveal_strlit("PARTIAL");
    reveal_strlit("BUSY");
    reveal_strlit("OFFLINE");
    assert("FREE"@.len() == 4);
    assert("PARTIAL"@.len() == 7);
    assert("BUSY"@.len() == 4);
    assert("OFFLINE"@.len() == 7);
    assert("FREE"@[0] != "BUSY"@[0]);
    assert("PARTIAL"@[0] != "OFFLINE"@[0]);
    reveal_strlit("free");
    reveal_strlit("partial");
    reveal_strlit("busy");
    reveal_strlit("offline");
    assert("free"@.len() == 4);
    assert("partial"@.len() == 7);
    assert("busy"@.len() == 4);
    assert("offline"@.len() == 7);
    assert("free"@[0] != "busy"@[0]);
    assert("partial"@[0] != "offline"@[0]);
    reveal_strlit("#4caf50");
    reveal_strlit("#00bcd4");
    reveal_strlit("#ffb74d");
    reveal_strlit("#78909c");
    assert("#4caf50"@.len() == 7);
    assert("#00bcd4"@.len() == 7);
    assert("#ffb74d"@.len() == 7);
    assert("#78909c"@.len() == 7);
    assert("#4caf50"@[1] != "#00bcd4"@[1]);
    assert("#4caf50"@[1] != "#ffb74d"@[1]);
    assert("#4caf50"@[1] != "#78909c"@[1]);
    assert("#00bcd4"@[1] != "#ffb74d"@[1]);
    assert("#00bcd4"@[1] != "#78909c"@[1]);
    assert("#ffb74d"@[1] != "#78909c"@[1]);
}

/// A worker belongs to the group of its controller, or of none where it has none; and to the group of
/// its state.
pub proof fn law_workers_belong_to_their_controller(
    ws: Seq<WorkerInfo>,
    w: WorkerInfo,
    name: Seq<char>,
    state: WorkerVisualState,
)
    ensures
        w.controller_id is Some ==> name_in(w, true) == w.controller_id->0@,
        w.controller_id is None ==> name_in(w, true) == "unassigned"@,
        name_in(w, false) == "cluster aggregate"@,
        members(ws, true, name, state).contains(w) <==> ws.contains(w) && name_in(w, true) == name
            && visual_state(w) == state,
{
    let p = |w: WorkerInfo| name_in(w, true) == name && visual_state(w) == state;
    crate::web::listing::lemma_kept_exactly(ws, p, w);
}

/// Up to twelve marks share a ring; of more, twelve stand on the inner ring, and the outer one holds
/// the rest.
pub proof fn law_twelve_marks_fill_a_ring(i: nat, total: nat)
    requires
        i < total,
    ensures
        total <= 12 ==> slot_of(i, total).1 == total && slot_of(i, total).2 == 42,
        total > 12 && i < 12 ==> slot_of(i, total).1 == 12 && slot_of(i, total).2 == 34,
        total > 12 && i >= 12 ==> slot_of(i, total).1 + 12 == total && slot_of(i, total).2 == 60
            && slot_of(i, total).0 + 12 == i,
        total <= 12 || i < 12 ==> slot_of(i, total).0 == i,
{
}

/// The mark of a worker shows its host, what its processors do, its state and its traffic; that of a
/// group how many workers it is for, whose they are and how many of their cores are busy.
pub proof fn law_marks_say_what_they_are_for(w: WorkerInfo, g: GroupView, i: nat, n: nat)
    ensures
        worker_item(w, i, n).label == w.hostname@,
        worker_item(w, i, n).state == visual_state(w),
        worker_item(w, i, n).count == 1,
        worker_item(w, i, n).activity == w.net_rx_rate + w.net_tx_rate,
        w.online ==> worker_item(w, i, n).detail == w.cpu_percent@ + "% CPU"@,
        !w.online ==> worker_item(w, i, n).detail == "OFFLINE"@,
        group_item(g, i, n).label == decimal(g.count) + " "@ + g.state.name(),
        group_item(g, i, n).detail == g.name + " · "@ + decimal(g.busy_cores) + "/"@ + decimal(
            g.total_cores,
        ) + " cores"@,
        group_item(g, i, n).state == g.state && group_item(g, i, n).count == g.count && group_item(
            g,
            i,
            n,
        ).activity == g.activity,
        worker_item(w, i, n).slot == slot_of(i, n) && group_item(g, i, n).slot == slot_of(i, n),
{
}

} // verus!
