//! What a machine has and what jobs use of it, read from the kernel's files and from the list
//! of processes.

use vstd::prelude::*;

use crate::numbers::decimal;
use crate::numbers::parse_i32;
use crate::numbers::parse_u32;
use crate::numbers::parse_u64;
use crate::numbers::parsed_i32;
use crate::numbers::parsed_u32;
use crate::numbers::parsed_u64;
use crate::paths::components;
use crate::paths::part_views;
use crate::paths::parts;
use crate::paths::Part;
use crate::paths::PathPart;
use crate::pieces::is_word;
use crate::pieces::joined;
use crate::pieces::lines;
use crate::pieces::lines_of;
use crate::pieces::split_whitespace;
use crate::pieces::words;
use crate::text::last_at;
use crate::text::rfind_char;
use crate::text::skip_chars;
use crate::text::str_eq;
use crate::text::texts;
use crate::text::trim;
use crate::text::trimmed;

verus! {

/// What one line of `cpu.stat` says of the processor time used.
pub open spec fn usage_on(line: Seq<char>) -> Option<u64> {
    let w = words(line);
    if w.len() == 2 && w[0] == "usage_usec"@ {
        parsed_u64(w[1])
    } else {
        None
    }
}

pub open spec fn first_usage(lines: Seq<Seq<char>>) -> Option<u64>
    decreases lines.len(),
{
    if lines.len() == 0 {
        None
    } else if usage_on(lines[0]) is Some {
        usage_on(lines[0])
    } else {
        first_usage(lines.skip(1))
    }
}

/// The processor time of a group in microseconds, from the contents of its `cpu.stat`.
pub fn read_cgroup_cpu_usec(content: &str) -> (r: Option<u64>)
    ensures
        r == first_usage(lines_of(content@)),
{
    let rows: Vec<String> = lines(content);
    let ghost all = texts(rows@);
    let mut i: usize = 0;
    assert(all.skip(0) =~= all);
    while i < rows.len()
        invariant
            i <= rows@.len(),
            all == texts(rows@),
            all == lines_of(content@),
            first_usage(all) == first_usage(all.skip(i as int)),
        decreases rows@.len() - i,
    {
        let w: Vec<String> = split_whitespace(&rows[i]);
        let ghost ws = words(rows@[i as int]@);
        assert(all.skip(i as int)[0] == rows@[i as int]@);
        assert(all.skip(i as int).skip(1) =~= all.skip(i + 1));
        assert(w@.len() == ws.len());
        if w.len() == 2 {
            assert(w@[0]@ == ws[0]);
            assert(w@[1]@ == ws[1]);
            if str_eq(&w[0], "usage_usec") {
                let usec: Option<u64> = parse_u64(&w[1]);
                if usec.is_some() {
                    return usec;
                }
            }
        }
        i = i + 1;
    }
    None
}

/// The memory of a group in bytes, from the contents of its `memory.current`.
pub fn read_cgroup_memory_bytes(content: &str) -> (r: Option<u64>)
    ensures
        r == parsed_u64(trimmed(content@)),
{
    parse_u64(&trim(content))
}

/// The process numbers on the first `n` lines of a `cgroup.procs`.
pub open spec fn pids_on(lines: Seq<Seq<char>>, n: int) -> Seq<u64>
    decreases n,
{
    if n <= 0 {
        Seq::empty()
    } else {
        match parsed_u64(trimmed(lines[n - 1])) {
            Some(pid) => pids_on(lines, n - 1).push(pid),
            None => pids_on(lines, n - 1),
        }
    }
}

/// The processes that a `cgroup.procs` lists.
pub fn cgroup_pids(content: &str) -> (r: Vec<u64>)
    ensures
        r@ == pids_on(lines_of(content@), lines_of(content@).len() as int),
{
    let rows: Vec<String> = lines(content);
    let ghost all = texts(rows@);
    let mut r: Vec<u64> = Vec::new();
    let mut i: usize = 0;
    while i < rows.len()
        invariant
            i <= rows@.len(),
            all == texts(rows@),
            r@ == pids_on(all, i as int),
        decreases rows@.len() - i,
    {
        assert(all[i as int] == rows@[i as int]@);
        if let Some(pid) = parse_u64(&trim(&rows[i])) {
            r.push(pid);
        }
        i = i + 1;
    }
    r
}

/// The fields of a process's `stat` after its name, which stands in parentheses and may hold
/// anything.
pub open spec fn stat_fields(content: Seq<char>) -> Option<Seq<Seq<char>>> {
    match last_at(content, ')') {
        Some(i) => Some(words(content.skip(i + 1))),
        None => None,
    }
}

fn fields_after_name(content: &str) -> (r: Option<Vec<String>>)
    ensures
        match stat_fields(content@) {
            Some(f) => r is Some && texts((r->0)@) == f,
            None => r is None,
        },
{
    match rfind_char(content, ')') {
        Some(i) => {
            let rest: String = skip_after(content, i);
            Some(split_whitespace(&rest))
        },
        None => None,
    }
}

fn skip_after(s: &str, i: usize) -> (r: String)
    requires
        i < s@.len(),
    ensures
        r@ == s@.skip(i + 1),
{
    let rest: String = skip_chars(s, i);
    let r: String = skip_chars(&rest, 1);
    assert(s@.skip(i as int).skip(1) =~= s@.skip(i + 1));
    r
}

/// The process group that a `stat` names: the third field after the name.
pub open spec fn group_in(content: Seq<char>) -> Option<i32> {
    match stat_fields(content) {
        Some(f) => if f.len() > 2 {
            parsed_i32(f[2])
        } else {
            None
        },
        None => None,
    }
}

pub fn read_process_group_id(content: &str) -> (r: Option<i32>)
    ensures
        r == group_in(content@),
{
    match fields_after_name(content) {
        Some(f) => if f.len() > 2 {
            assert(f@[2]@ == texts(f@)[2]);
            parse_i32(&f[2])
        } else {
            None
        },
        None => None,
    }
}

pub open spec fn saturated(n: int) -> u64 {
    if n <= u64::MAX {
        n as u64
    } else {
        u64::MAX
    }
}

/// The processor time that a `stat` gives, in clock ticks: that of the process and that spent
/// for it in the kernel, the twelfth and thirteenth field after the name.
pub open spec fn ticks_in(content: Seq<char>) -> Option<u64> {
    match stat_fields(content) {
        Some(f) => if f.len() > 12 && parsed_u64(f[11]) is Some && parsed_u64(f[12]) is Some {
            Some(saturated(parsed_u64(f[11])->0 + parsed_u64(f[12])->0))
        } else {
            None
        },
        None => None,
    }
}

pub fn parse_proc_stat_cpu_ticks(content: &str) -> (r: Option<u64>)
    ensures
        r == ticks_in(content@),
{
    let f: Vec<String> = match fields_after_name(content) {
        Some(f) => f,
        None => {
            return None;
        },
    };
    if f.len() <= 12 {
        return None;
    }
    assert(f@[11]@ == texts(f@)[11]);
    assert(f@[12]@ == texts(f@)[12]);
    let utime: u64 = match parse_u64(&f[11]) {
        Some(t) => t,
        None => {
            return None;
        },
    };
    let stime: u64 = match parse_u64(&f[12]) {
        Some(t) => t,
        None => {
            return None;
        },
    };
    Some(utime.saturating_add(stime))
}

/// The clock ticks in a second, where the system says `ticks`.
pub fn clock_ticks_per_second(ticks: i64) -> (r: u64)
    ensures
        r == (if ticks > 0 {
            ticks as int
        } else {
            100
        }),
{
    if ticks > 0 {
        ticks as u64
    } else {
        100
    }
}

/// The bytes of a page of memory, where the system says `size`.
pub fn page_size_bytes(size: i64) -> (r: u64)
    ensures
        r == (if size > 0 {
            size as int
        } else {
            4096
        }),
{
    if size > 0 {
        size as u64
    } else {
        4096
    }
}

/// An entry of a job's `/proc`, with what its `stat` and `statm` held, if they could be read.
pub struct NamespaceEntry {
    pub name: String,
    pub stat: Option<String>,
    pub statm: Option<String>,
}

/// The clock ticks of an entry that is a process.
pub open spec fn entry_ticks(e: NamespaceEntry) -> Option<u64> {
    if parsed_u32(e.name@) is Some {
        match e.stat {
            Some(s) => ticks_in(s@),
            None => None,
        }
    } else {
        None
    }
}

/// The pages of memory that a `statm` gives: its second field.
pub open spec fn pages_in(statm: Seq<char>) -> Option<u64> {
    if words(statm).len() > 1 {
        parsed_u64(words(statm)[1])
    } else {
        None
    }
}

/// The bytes of memory of an entry that is a process.
pub open spec fn entry_memory(e: NamespaceEntry, page_size: u64) -> u64 {
    if parsed_u32(e.name@) is Some {
        match e.statm {
            Some(s) => match pages_in(s@) {
                Some(pages) => saturated(pages * page_size),
                None => 0,
            },
            None => 0,
        }
    } else {
        0
    }
}

pub open spec fn sum_ticks(entries: Seq<NamespaceEntry>, n: int) -> u64
    decreases n,
{
    if n <= 0 {
        0
    } else {
        match entry_ticks(entries[n - 1]) {
            Some(t) => saturated(sum_ticks(entries, n - 1) + t),
            None => sum_ticks(entries, n - 1),
        }
    }
}

pub open spec fn sum_pages(entries: Seq<NamespaceEntry>, page_size: u64, n: int) -> u64
    decreases n,
{
    if n <= 0 {
        0
    } else {
        saturated(
            sum_pages(entries, page_size, n - 1) + entry_memory(entries[n - 1], page_size),
        )
    }
}

/// Some entry is a process whose ticks can be read.
pub open spec fn sees_process(entries: Seq<NamespaceEntry>, n: int) -> bool {
    exists|i: int| 0 <= i < n && entry_ticks(#[trigger] entries[i]) is Some
}

fn resident_pages(statm: &str) -> (r: Option<u64>)
    ensures
        r == pages_in(statm@),
{
    let w: Vec<String> = split_whitespace(statm);
    assert(texts(w@).len() == w@.len());
    if w.len() > 1 {
        assert(w@[1]@ == texts(w@)[1]);
        parse_u64(&w[1])
    } else {
        None
    }
}

/// The clock ticks and bytes of memory of all the processes of a job's namespace; none, where
/// no process is to be seen.
pub fn read_namespace_process_totals(entries: &Vec<NamespaceEntry>, page_size: u64) -> (r: Option<
    (u64, u64),
>)
    ensures
        r is Some <==> sees_process(entries@, entries@.len() as int),
        r matches Some(t) ==> t.0 == sum_ticks(entries@, entries@.len() as int) && t.1
            == sum_pages(entries@, page_size, entries@.len() as int),
{
    let mut ticks: u64 = 0;
    let mut memory: u64 = 0;
    let mut saw: bool = false;
    let mut i: usize = 0;
    while i < entries.len()
        invariant
            i <= entries@.len(),
            ticks == sum_ticks(entries@, i as int),
            memory == sum_pages(entries@, page_size, i as int),
            saw <==> sees_process(entries@, i as int),
        decreases entries@.len() - i,
    {
        let ghost saw_before = saw;
        if parse_u32(&entries[i].name).is_some() {
            if let Some(stat) = &entries[i].stat {
                if let Some(t) = parse_proc_stat_cpu_ticks(stat) {
                    ticks = ticks.saturating_add(t);
                    saw = true;
                    assert(entry_ticks(entries@[i as int]) is Some);
                }
            }
            if let Some(statm) = &entries[i].statm {
                if let Some(pages) = resident_pages(statm) {
                    let bytes: u64 = match pages.checked_mul(page_size) {
                        Some(b) => b,
                        None => u64::MAX,
                    };
                    memory = memory.saturating_add(bytes);
                }
            }
        }
        assert(saw_before ==> sees_process(entries@, i + 1));
        i = i + 1;
    }
    if saw {
        Some((ticks, memory))
    } else {
        None
    }
}

/// A process and the memory that it uses.
#[derive(Clone, Copy)]
pub struct ProcUse {
    pub pid: u32,
    pub parent: Option<u32>,
    pub memory: u64,
    pub group: Option<i32>,
}

/// The memory of the first `n` processes whose number is in `pids`.
pub open spec fn memory_of(rows: Seq<ProcUse>, pids: Seq<u32>, n: int) -> nat
    decreases n,
{
    if n <= 0 {
        0
    } else if pids.contains(rows[n - 1].pid) {
        memory_of(rows, pids, n - 1) + rows[n - 1].memory as nat
    } else {
        memory_of(rows, pids, n - 1)
    }
}

fn has_pid(pids: &Vec<u32>, pid: u32) -> (r: bool)
    ensures
        r == pids@.contains(pid),
{
    let mut i: usize = 0;
    while i < pids.len()
        invariant
            i <= pids@.len(),
            forall|k: int| 0 <= k < i ==> pids@[k] != pid,
        decreases pids@.len() - i,
    {
        if pids[i] == pid {
            assert(pids@[i as int] == pid);
            return true;
        }
        i = i + 1;
    }
    false
}

proof fn lemma_memory_grows(rows: Seq<ProcUse>, pids: Seq<u32>, a: int, b: int)
    requires
        0 <= a <= b,
    ensures
        memory_of(rows, pids, a) <= memory_of(rows, pids, b),
    decreases b - a,
{
    if a < b {
        lemma_memory_grows(rows, pids, a, b - 1);
    }
}

/// The memory of the processes `pids`; none, where the sum does not fit.
pub fn total_memory(rows: &Vec<ProcUse>, pids: &Vec<u32>) -> (r: Option<u64>)
    ensures
        match r {
            Some(m) => m == memory_of(rows@, pids@, rows@.len() as int),
            None => memory_of(rows@, pids@, rows@.len() as int) > u64::MAX,
        },
{
    let mut total: u64 = 0;
    let mut i: usize = 0;
    while i < rows.len()
        invariant
            i <= rows@.len(),
            total == memory_of(rows@, pids@, i as int),
        decreases rows@.len() - i,
    {
        if has_pid(pids, rows[i].pid) {
            match total.checked_add(rows[i].memory) {
                Some(t) => {
                    total = t;
                },
                None => {
                    proof {
                        lemma_memory_grows(rows@, pids@, i + 1, rows@.len() as int);
                    }
                    return None;
                },
            }
        }
        i = i + 1;
    }
    Some(total)
}

/// The numbers of the first `n` processes of a group.
pub open spec fn group_members(rows: Seq<ProcUse>, group: i32, n: int) -> Seq<u32>
    decreases n,
{
    if n <= 0 {
        Seq::empty()
    } else if rows[n - 1].group == Some(group) {
        group_members(rows, group, n - 1).push(rows[n - 1].pid)
    } else {
        group_members(rows, group, n - 1)
    }
}

/// The processes of the launcher's group; none, where the launcher's group is not known.
pub fn get_process_group(rows: &Vec<ProcUse>, launcher_group: Option<i32>) -> (r: Vec<u32>)
    ensures
        match launcher_group {
            Some(g) => r@ == group_members(rows@, g, rows@.len() as int),
            None => r@.len() == 0,
        },
{
    let mut r: Vec<u32> = Vec::new();
    let target: i32 = match launcher_group {
        Some(g) => g,
        None => {
            return r;
        },
    };
    let mut i: usize = 0;
    while i < rows.len()
        invariant
            i <= rows@.len(),
            r@ == group_members(rows@, target, i as int),
        decreases rows@.len() - i,
    {
        let member: bool = match rows[i].group {
            Some(g) => g == target,
            None => false,
        };
        if member {
            r.push(rows[i].pid);
        }
        i = i + 1;
    }
    r
}

/// The process is the root, or at most `n` steps below it.
pub open spec fn within(rows: Seq<ProcUse>, root: u32, pid: u32, n: nat) -> bool
    decreases n,
{
    if n == 0 {
        pid == root
    } else {
        within(rows, root, pid, (n - 1) as nat) || exists|i: int|
            0 <= i < rows.len() && (#[trigger] rows[i]).pid == pid && rows[i].parent is Some
                && within(rows, root, rows[i].parent->0, (n - 1) as nat)
    }
}

/// The process is the root or descends from it.
pub open spec fn descends(rows: Seq<ProcUse>, root: u32, pid: u32) -> bool {
    exists|n: nat| within(rows, root, pid, n)
}

/// The set of processes holds the children of its members.
pub open spec fn closed_under_children(rows: Seq<ProcUse>, pids: Seq<u32>) -> bool {
    forall|i: int|
        0 <= i < rows.len() && (#[trigger] rows[i]).parent is Some && pids.contains(
            rows[i].parent->0,
        ) ==> pids.contains(rows[i].pid)
}

proof fn lemma_closed_holds_descendants(
    rows: Seq<ProcUse>,
    root: u32,
    pids: Seq<u32>,
    pid: u32,
    n: nat,
)
    requires
        pids.contains(root),
        closed_under_children(rows, pids),
        within(rows, root, pid, n),
    ensures
        pids.contains(pid),
    decreases n,
{
    if n > 0 {
        if within(rows, root, pid, (n - 1) as nat) {
            lemma_closed_holds_descendants(rows, root, pids, pid, (n - 1) as nat);
        } else {
            let i = choose|i: int|
                0 <= i < rows.len() && (#[trigger] rows[i]).pid == pid && rows[i].parent is Some
                    && within(rows, root, rows[i].parent->0, (n - 1) as nat);
            lemma_closed_holds_descendants(rows, root, pids, rows[i].parent->0, (n - 1) as nat);
        }
    }
}

/// The root, or a process of the list.
pub open spec fn known_pid(rows: Seq<ProcUse>, root: u32, pid: u32) -> bool {
    pid == root || exists|i: int| 0 <= i < rows.len() && (#[trigger] rows[i]).pid == pid
}

proof fn lemma_distinct_pids_fit(rows: Seq<ProcUse>, root: u32, pids: Seq<u32>)
    requires
        pids.no_duplicates(),
        forall|k: int| 0 <= k < pids.len() ==> known_pid(rows, root, #[trigger] pids[k]),
    ensures
        pids.len() <= rows.len() + 1,
{
    let names = Seq::new(rows.len(), |i: int| rows[i].pid).push(root);
    pids.unique_seq_to_set();
    names.lemma_cardinality_of_set();
    assert(pids.to_set().subset_of(names.to_set())) by {
        assert forall|p: u32| pids.to_set().contains(p) implies names.to_set().contains(p) by {
            let k = choose|k: int| 0 <= k < pids.len() && pids[k] == p;
            assert(known_pid(rows, root, pids[k]));
            if p == root {
                assert(names[rows.len() as int] == p);
            } else {
                let i = choose|i: int| 0 <= i < rows.len() && (#[trigger] rows[i]).pid == p;
                assert(names[i] == p);
            }
        }
    }
    vstd::set_lib::lemma_len_subset(pids.to_set(), names.to_set());
}

/// The launcher and all the processes that descend from it, each once.
pub fn get_process_descendants(rows: &Vec<ProcUse>, launcher: u32) -> (r: Vec<u32>)
    ensures
        r@.no_duplicates(),
        forall|pid: u32| r@.contains(pid) <==> descends(rows@, launcher, pid),
{
    let mut queue: Vec<u32> = Vec::new();
    queue.push(launcher);
    let mut idx: usize = 0;
    assert(queue@[0] == launcher);
    assert(within(rows@, launcher, launcher, 0));
    proof {
        lemma_distinct_pids_fit(rows@, launcher, queue@);
    }
    while idx < queue.len()
        invariant
            idx <= queue@.len() <= rows@.len() + 1,
            queue@.no_duplicates(),
            queue@.len() > 0,
            queue@[0] == launcher,
            forall|k: int|
                0 <= k < queue@.len() ==> descends(rows@, launcher, #[trigger] queue@[k]),
            forall|k: int|
                0 <= k < queue@.len() ==> known_pid(rows@, launcher, #[trigger] queue@[k]),
            forall|k: int, i: int|
                0 <= k < idx && 0 <= i < rows@.len() && (#[trigger] rows@[i]).parent == Some(
                    #[trigger] queue@[k],
                ) ==> queue@.contains(rows@[i].pid),
        decreases rows@.len() + 1 - idx,
    {
        let current: u32 = queue[idx];
        let ghost start = queue@;
        let mut i: usize = 0;
        while i < rows.len()
            invariant
                idx < start.len() <= queue@.len() <= rows@.len() + 1,
                start[idx as int] == current,
                forall|k: int| 0 <= k < start.len() ==> #[trigger] queue@[k] == start[k],
                i <= rows@.len(),
                queue@.no_duplicates(),
                queue@[0] == launcher,
                forall|k: int|
                    0 <= k < queue@.len() ==> descends(rows@, launcher, #[trigger] queue@[k]),
                forall|k: int|
                    0 <= k < queue@.len() ==> known_pid(rows@, launcher, #[trigger] queue@[k]),
                forall|k: int, j: int|
                    0 <= k < idx && 0 <= j < rows@.len() && (#[trigger] rows@[j]).parent == Some(
                        #[trigger] queue@[k],
                    ) ==> queue@.contains(rows@[j].pid),
                forall|j: int|
                    0 <= j < i && (#[trigger] rows@[j]).parent == Some(current)
                        ==> queue@.contains(rows@[j].pid),
            decreases rows@.len() - i,
        {
            let child: bool = match rows[i].parent {
                Some(p) => p == current,
                None => false,
            };
            let ghost before = queue@;
            if child && !has_pid(&queue, rows[i].pid) {
                let pid: u32 = rows[i].pid;
                queue.push(pid);
                proof {
                    assert(before[idx as int] == current);
                    let n = choose|n: nat| within(rows@, launcher, current, n);
                    assert(rows@[i as int].pid == pid);
                    assert(within(rows@, launcher, pid, n + 1));
                    assert(known_pid(rows@, launcher, pid));
                    lemma_distinct_pids_fit(rows@, launcher, queue@);
                    assert forall|p: u32| before.contains(p) implies queue@.contains(p) by {
                        let k = choose|k: int| 0 <= k < before.len() && before[k] == p;
                        assert(queue@[k] == p);
                    }
                    assert(queue@[before.len() as int] == pid);
                }
            }
            i = i + 1;
        }
        assert(queue@[idx as int] == current);
        idx = idx + 1;
    }
    proof {
        assert(queue@.contains(launcher));
        assert(closed_under_children(rows@, queue@)) by {
            assert forall|i: int|
                0 <= i < rows@.len() && (#[trigger] rows@[i]).parent is Some && queue@.contains(
                    rows@[i].parent->0,
                ) implies queue@.contains(rows@[i].pid) by {
                let k = choose|k: int| 0 <= k < queue@.len() && queue@[k] == rows@[i].parent->0;
                assert(rows@[i].parent == Some(queue@[k]));
            }
        }
        assert forall|pid: u32| queue@.contains(pid) <==> descends(rows@, launcher, pid) by {
            if queue@.contains(pid) {
                let k = choose|k: int| 0 <= k < queue@.len() && queue@[k] == pid;
                assert(descends(rows@, launcher, queue@[k]));
            }
            if descends(rows@, launcher, pid) {
                let n = choose|n: nat| within(rows@, launcher, pid, n);
                lemma_closed_holds_descendants(rows@, launcher, queue@, pid, n);
            }
        }
    }
    queue
}

/// A mounted disk.
pub struct DiskRow {
    pub mount_point: String,
    pub total: u64,
    pub free: u64,
}

/// The disk is mounted at the root.
pub open spec fn at_root(d: DiskRow) -> bool {
    parts(d.mount_point@) == seq![Part::Root]
}

/// The space of the first disk mounted at the root; nothing, where there is none.
pub open spec fn root_space(disks: Seq<DiskRow>) -> (nat, nat)
    decreases disks.len(),
{
    if disks.len() == 0 {
        (0, 0)
    } else if at_root(disks[0]) {
        (disks[0].total as nat, disks[0].free as nat)
    } else {
        root_space(disks.skip(1))
    }
}

pub open spec fn sum_space(disks: Seq<DiskRow>, n: int) -> (nat, nat)
    decreases n,
{
    if n <= 0 {
        (0, 0)
    } else {
        (
            sum_space(disks, n - 1).0 + disks[n - 1].total as nat,
            sum_space(disks, n - 1).1 + disks[n - 1].free as nat,
        )
    }
}

/// The space in total and the free space of a machine: that of the disk at the root, or of all
/// disks where that has no space to speak of.
pub open spec fn disk_space_of(disks: Seq<DiskRow>) -> (nat, nat) {
    if root_space(disks).0 != 0 {
        root_space(disks)
    } else {
        let sum = sum_space(disks, disks.len() as int);
        (sum.0, root_space(disks).1 + sum.1)
    }
}

fn mounted_at_root(d: &DiskRow) -> (r: bool)
    ensures
        r == at_root(*d),
{
    let c: Vec<PathPart> = components(&d.mount_point);
    assert(parts(d.mount_point@) == part_views(c@));
    if c.len() == 1 {
        assert(part_views(c@)[0] == c@[0]@);
        match &c[0] {
            PathPart::Root => {
                assert(part_views(c@) =~= seq![Part::Root]);
                true
            },
            _ => {
                assert(part_views(c@)[0] != Part::Root);
                assert(seq![Part::Root][0] == Part::Root);
                false
            },
        }
    } else {
        assert(seq![Part::Root].len() == 1);
        assert(part_views(c@).len() != 1);
        false
    }
}

proof fn lemma_space_grows(disks: Seq<DiskRow>, a: int, b: int)
    requires
        0 <= a <= b,
    ensures
        sum_space(disks, a).0 <= sum_space(disks, b).0,
        sum_space(disks, a).1 <= sum_space(disks, b).1,
    decreases b - a,
{
    if a < b {
        lemma_space_grows(disks, a, b - 1);
    }
}

/// The space of the machine's disks; none, where a sum does not fit.
pub fn disk_space(disks: &Vec<DiskRow>) -> (r: Option<(u64, u64)>)
    ensures
        match r {
            Some(s) => s.0 == disk_space_of(disks@).0 && s.1 == disk_space_of(disks@).1,
            None => disk_space_of(disks@).0 > u64::MAX || disk_space_of(disks@).1 > u64::MAX,
        },
{
    let mut total: u64 = 0;
    let mut free: u64 = 0;
    let mut i: usize = 0;
    assert(disks@.skip(0) =~= disks@);
    while i < disks.len()
        invariant_except_break
            i <= disks@.len(),
            total == 0,
            free == 0,
            root_space(disks@) == root_space(disks@.skip(i as int)),
        ensures
            total == root_space(disks@).0,
            free == root_space(disks@).1,
        decreases disks@.len() - i,
    {
        assert(disks@.skip(i as int)[0] == disks@[i as int]);
        assert(disks@.skip(i as int).skip(1) =~= disks@.skip(i + 1));
        if mounted_at_root(&disks[i]) {
            total = disks[i].total;
            free = disks[i].free;
            break;
        }
        i = i + 1;
    }
    if total == 0 {
        let ghost base = free;
        let mut k: usize = 0;
        while k < disks.len()
            invariant
                k <= disks@.len(),
                root_space(disks@) == (0nat, base as nat),
                total == sum_space(disks@, k as int).0,
                free == base + sum_space(disks@, k as int).1,
            decreases disks@.len() - k,
        {
            proof {
                lemma_space_grows(disks@, k + 1, disks@.len() as int);
            }
            match total.checked_add(disks[k].total) {
                Some(t) => {
                    total = t;
                },
                None => {
                    return None;
                },
            }
            match free.checked_add(disks[k].free) {
                Some(f) => {
                    free = f;
                },
                None => {
                    return None;
                },
            }
            k = k + 1;
        }
    }
    Some((total, free))
}

/// No disk has more space free than it has.
pub open spec fn sound_disks(disks: Seq<DiskRow>, n: int) -> bool {
    forall|i: int| 0 <= i < n ==> (#[trigger] disks[i]).free <= disks[i].total
}

/// The used space and the space in total of all disks together; none, where a disk has more
/// space free than it has, or where the sum does not fit.
pub fn disk_usage(disks: &Vec<DiskRow>) -> (r: Option<(u64, u64)>)
    ensures
        ({
            let sum = sum_space(disks@, disks@.len() as int);
            match r {
                Some(u) => sound_disks(disks@, disks@.len() as int) && u.0 == sum.0 - sum.1 && u.1
                    == sum.0,
                None => !sound_disks(disks@, disks@.len() as int) || sum.0 > u64::MAX,
            }
        }),
{
    let mut used: u64 = 0;
    let mut total: u64 = 0;
    let mut k: usize = 0;
    while k < disks.len()
        invariant
            k <= disks@.len(),
            sound_disks(disks@, k as int),
            total == sum_space(disks@, k as int).0,
            used == sum_space(disks@, k as int).0 - sum_space(disks@, k as int).1,
        decreases disks@.len() - k,
    {
        proof {
            lemma_space_grows(disks@, k + 1, disks@.len() as int);
        }
        if disks[k].free > disks[k].total {
            return None;
        }
        match total.checked_add(disks[k].total) {
            Some(t) => {
                total = t;
            },
            None => {
                return None;
            },
        }
        used = used + (disks[k].total - disks[k].free);
        k = k + 1;
    }
    Some((used, total))
}

/// The bytes read and written that one line of `/proc/diskstats` tells of: 512 for each sector
/// in its sixth and tenth field.
pub open spec fn io_on(line: Seq<char>) -> (nat, nat) {
    let w = words(line);
    if w.len() >= 13 && parsed_u64(w[5]) is Some && parsed_u64(w[9]) is Some {
        (parsed_u64(w[5])->0 as nat * 512, parsed_u64(w[9])->0 as nat * 512)
    } else {
        (0, 0)
    }
}

pub open spec fn sum_io(lines: Seq<Seq<char>>, n: int) -> (nat, nat)
    decreases n,
{
    if n <= 0 {
        (0, 0)
    } else {
        (
            sum_io(lines, n - 1).0 + io_on(lines[n - 1]).0,
            sum_io(lines, n - 1).1 + io_on(lines[n - 1]).1,
        )
    }
}

proof fn lemma_io_grows(lines: Seq<Seq<char>>, a: int, b: int)
    requires
        0 <= a <= b,
    ensures
        sum_io(lines, a).0 <= sum_io(lines, b).0,
        sum_io(lines, a).1 <= sum_io(lines, b).1,
    decreases b - a,
{
    if a < b {
        lemma_io_grows(lines, a, b - 1);
    }
}

fn line_io(line: &str) -> (r: Option<(u64, u64)>)
    ensures
        match r {
            Some(p) => p.0 == io_on(line@).0 && p.1 == io_on(line@).1,
            None => io_on(line@).0 > u64::MAX || io_on(line@).1 > u64::MAX,
        },
{
    let w: Vec<String> = split_whitespace(line);
    let ghost ws = words(line@);
    assert(w@.len() == ws.len());
    if w.len() >= 13 {
        assert(w@[5]@ == ws[5]);
        assert(w@[9]@ == ws[9]);
        if let Some(a) = parse_u64(&w[5]) {
            if let Some(b) = parse_u64(&w[9]) {
                if a > 36028797018963967 || b > 36028797018963967 {
                    return None;
                }
                return Some((a * 512, b * 512));
            }
        }
    }
    Some((0, 0))
}

/// The bytes that the machine's disks have read and written, from the contents of
/// `/proc/diskstats`; none, where a sum does not fit.
pub fn get_disk_io(content: &str) -> (r: Option<(u64, u64)>)
    ensures
        ({
            let rows = lines_of(content@);
            let sum = sum_io(rows, rows.len() as int);
            match r {
                Some(s) => s.0 == sum.0 && s.1 == sum.1,
                None => sum.0 > u64::MAX || sum.1 > u64::MAX,
            }
        }),
{
    let rows: Vec<String> = lines(content);
    let ghost all = texts(rows@);
    let mut read: u64 = 0;
    let mut written: u64 = 0;
    let mut i: usize = 0;
    while i < rows.len()
        invariant
            i <= rows@.len(),
            all == texts(rows@),
            all == lines_of(content@),
            read == sum_io(all, i as int).0,
            written == sum_io(all, i as int).1,
        decreases rows@.len() - i,
    {
        assert(all[i as int] == rows@[i as int]@);
        proof {
            lemma_io_grows(all, i + 1, all.len() as int);
        }
        match line_io(&rows[i]) {
            Some(p) => {
                match read.checked_add(p.0) {
                    Some(t) => {
                        read = t;
                    },
                    None => {
                        return None;
                    },
                }
                match written.checked_add(p.1) {
                    Some(t) => {
                        written = t;
                    },
                    None => {
                        return None;
                    },
                }
            },
            None => {
                return None;
            },
        }
        i = i + 1;
    }
    Some((read, written))
}

/// A kind of generic resource and how many units of it there are.
pub struct GresCount {
    pub name: String,
    pub count: u64,
}

/// The number that a list gives for a name: that of its first entry for it.
pub open spec fn count_of(list: Seq<GresCount>, name: Seq<char>) -> Option<u64>
    decreases list.len(),
{
    if list.len() == 0 {
        None
    } else if list[0].name@ == name {
        Some(list[0].count)
    } else {
        count_of(list.skip(1), name)
    }
}

proof fn lemma_count_prefix(list: Seq<GresCount>, k: int, name: Seq<char>)
    requires
        0 <= k <= list.len(),
        forall|j: int| 0 <= j < k ==> (#[trigger] list[j]).name@ != name,
    ensures
        count_of(list, name) == count_of(list.skip(k), name),
    decreases k,
{
    if k == 0 {
        assert(list.skip(0) =~= list);
    } else {
        assert(list[0].name@ != name);
        let rest = list.skip(1);
        assert forall|j: int| 0 <= j < k - 1 implies (#[trigger] rest[j]).name@ != name by {
            assert(rest[j] == list[j + 1]);
        }
        lemma_count_prefix(rest, k - 1, name);
        assert(rest.skip(k - 1) =~= list.skip(k));
    }
}

proof fn lemma_count_unchanged(a: Seq<GresCount>, b: Seq<GresCount>, k: int, name: Seq<char>)
    requires
        a.len() == b.len(),
        0 <= k < a.len(),
        forall|j: int| 0 <= j < a.len() && j != k ==> #[trigger] a[j] == b[j],
        a[k].name@ == b[k].name@,
        a[k].name@ != name,
    ensures
        count_of(a, name) == count_of(b, name),
    decreases a.len(),
{
    if k == 0 {
        assert(a.skip(1) =~= b.skip(1));
    } else {
        assert(a[0] == b[0]);
        let x = a.skip(1);
        let y = b.skip(1);
        assert forall|j: int| 0 <= j < x.len() && j != k - 1 implies #[trigger] x[j] == y[j] by {
            assert(a[j + 1] == b[j + 1]);
        }
        lemma_count_unchanged(x, y, k - 1, name);
    }
}

proof fn lemma_count_pushed(list: Seq<GresCount>, e: GresCount, name: Seq<char>)
    ensures
        count_of(list.push(e), name) == (match count_of(list, name) {
            Some(c) => Some(c),
            None => if e.name@ == name {
                Some(e.count)
            } else {
                None
            },
        }),
    decreases list.len(),
{
    if list.len() == 0 {
        assert(list.push(e).skip(1) =~= Seq::<GresCount>::empty());
        assert(count_of(list.push(e).skip(1), name) is None);
    } else {
        assert(list.push(e).skip(1) =~= list.skip(1).push(e));
        lemma_count_pushed(list.skip(1), e, name);
    }
}

/// The machine's resources: those configured, with the GPUs that were found on it, if any were.
pub fn machine_gres(configured: Vec<GresCount>, gpus_found: Option<u32>) -> (r: Vec<GresCount>)
    ensures
        gpus_found is None || gpus_found == Some(0u32) ==> r@ == configured@,
        gpus_found matches Some(n) ==> n > 0 ==> {
            &&& count_of(r@, "gpu"@) == Some(n as u64)
            &&& forall|name: Seq<char>|
                name != "gpu"@ ==> #[trigger] count_of(r@, name) == count_of(configured@, name)
        },
{
    let n: u32 = match gpus_found {
        Some(n) => n,
        None => {
            return configured;
        },
    };
    if n == 0 {
        return configured;
    }
    let ghost input = configured@;
    let mut list: Vec<GresCount> = configured;
    let mut i: usize = 0;
    while i < list.len()
        invariant
            gpus_found == Some(n),
            n > 0,
            input == configured@,
            i <= list@.len(),
            list@ == input,
            forall|j: int| 0 <= j < i ==> (#[trigger] list@[j]).name@ != "gpu"@,
        decreases list@.len() - i,
    {
        if str_eq(&list[i].name, "gpu") {
            let entry = GresCount { name: list[i].name.clone(), count: n as u64 };
            list.set(i, entry);
            proof {
                assert forall|j: int| 0 <= j < i implies (#[trigger] list@[j]).name@ != "gpu"@ by {
                    assert(list@[j] == input[j]);
                }
                lemma_count_prefix(list@, i as int, "gpu"@);
                assert(list@.skip(i as int)[0] == list@[i as int]);
                assert forall|name: Seq<char>| name != "gpu"@ implies #[trigger] count_of(
                    list@,
                    name,
                ) == count_of(input, name) by {
                    lemma_count_unchanged(list@, input, i as int, name);
                }
            }
            return list;
        }
        i = i + 1;
    }
    let entry = GresCount { name: "gpu".to_owned(), count: n as u64 };
    proof {
        lemma_count_prefix(input, input.len() as int, "gpu"@);
        assert(count_of(input, "gpu"@) is None);
        lemma_count_pushed(input, entry, "gpu"@);
        assert forall|name: Seq<char>| name != "gpu"@ implies #[trigger] count_of(
            input.push(entry),
            name,
        ) == count_of(input, name) by {
            lemma_count_pushed(input, entry, name);
        }
    }
    list.push(entry);
    list
}

/// The processor time of a group is the number on the first line that gives one, whatever the other
/// lines say.
pub proof fn law_processor_time_is_read(
    before: Seq<Seq<char>>,
    n: u64,
    after: Seq<Seq<char>>,
)
    requires
        forall|i: int| 0 <= i < before.len() ==> usage_on(#[trigger] before[i]) is None,
    ensures
        first_usage(before.push("usage_usec "@ + decimal(n as nat)) + after) == Some(n),
        first_usage(before) is None,
    decreases before.len(),
{
    let line = "usage_usec "@ + decimal(n as nat);
    let all = before.push(line) + after;
    if before.len() == 0 {
        reveal_strlit("usage_usec ");
        reveal_strlit("usage_usec");
        let name = "usage_usec"@;
        let p = seq![name, decimal(n as nat)];
        lemma_number_is_word(n as nat);
        assert(is_word(name));
        assert forall|i: int| 0 <= i < p.len() implies is_word(#[trigger] p[i]) by {
            if i == 0 {
                assert(p[0] == name);
            } else {
                assert(p[1] == decimal(n as nat));
            }
        }
        crate::pieces::law_words_are_read(p);
        assert(p.drop_last() =~= seq![name]);
        assert(joined(seq![name], seq![' ']) == name);
        assert(joined(p, seq![' ']) =~= line);
        crate::numbers::law_read_undoes_decimal(n as nat);
        assert(all[0] == line);
    } else {
        assert(usage_on(before[0]) is None);
        let rest = before.skip(1);
        assert forall|i: int| 0 <= i < rest.len() implies usage_on(#[trigger] rest[i]) is None by {
            assert(rest[i] == before[i + 1]);
        }
        law_processor_time_is_read(rest, n, after);
        assert(all[0] == before[0]);
        assert(all.skip(1) =~= rest.push(line) + after);
    }
}

proof fn lemma_number_is_word(n: nat)
    ensures
        is_word(decimal(n)),
{
    crate::numbers::lemma_decimal_digits(n);
    assert forall|i: int| 0 <= i < decimal(n).len() implies !crate::text::is_space(
        #[trigger] decimal(n)[i],
    ) by {
        assert(crate::numbers::is_digit(decimal(n)[i]));
    }
}

/// The fields of a process's `stat` are read whatever its name is: also where the name holds spaces
/// and brackets.
pub proof fn law_fields_are_read_after_any_name(name: Seq<char>, fields: Seq<Seq<char>>)
    requires
        fields.len() > 0,
        forall|i: int| 0 <= i < fields.len() ==> is_word(#[trigger] fields[i]),
        !joined(fields, seq![' ']).contains(')'),
    ensures
        stat_fields(name + seq![')', ' '] + joined(fields, seq![' '])) == Some(fields),
{
    let rest = seq![' '] + joined(fields, seq![' ']);
    let all = name + seq![')', ' '] + joined(fields, seq![' ']);
    assert(!rest.contains(')')) by {
        if rest.contains(')') {
            let i = choose|i: int| 0 <= i < rest.len() && rest[i] == ')';
            assert(joined(fields, seq![' '])[i - 1] == ')');
        }
    }
    assert(all =~= name.push(')') + rest);
    crate::text::law_last_is_found(name, ')', rest);
    assert(all.skip(name.len() as int + 1) =~= rest);
    crate::pieces::law_words_are_read(fields);
}

/// The group of a process and the time that it used are those that its `stat` gives: the time in its
/// own code and that in the kernel together.
pub proof fn law_processes_are_measured(
    content: Seq<char>,
    fields: Seq<Seq<char>>,
    group: i32,
    user: u64,
    system: u64,
)
    requires
        stat_fields(content) == Some(fields),
    ensures
        fields.len() > 2 && fields[2] == crate::numbers::decimal_int(group as int) ==> group_in(
            content,
        ) == Some(group),
        fields.len() <= 2 ==> group_in(content) is None,
        fields.len() > 12 && fields[11] == decimal(user as nat) && fields[12] == decimal(
            system as nat,
        ) && user + system <= u64::MAX ==> ticks_in(content) == Some((user + system) as u64),
        fields.len() <= 12 ==> ticks_in(content) is None,
{
    crate::numbers::law_read_undoes_decimal_int(group as int);
    crate::numbers::law_read_undoes_decimal(user as nat);
    crate::numbers::law_read_undoes_decimal(system as nat);
}

/// What counts for a job's namespace are its processes, which are the entries named by a number:
/// each with its own time and the memory of its pages.
pub proof fn law_only_processes_count(entries: Seq<NamespaceEntry>, page_size: u64, n: int)
    requires
        0 <= n < entries.len(),
    ensures
        parsed_u32(entries[n].name@) is None ==> sum_ticks(entries, n + 1) == sum_ticks(entries, n)
            && sum_pages(entries, page_size, n + 1) == sum_pages(entries, page_size, n),
        parsed_u32(entries[n].name@) is Some && entries[n].stat is Some && ticks_in(
            (entries[n].stat->0)@,
        ) is Some ==> sum_ticks(entries, n + 1) == saturated(
            sum_ticks(entries, n) + ticks_in((entries[n].stat->0)@)->0,
        ) && sees_process(entries, n + 1),
        parsed_u32(entries[n].name@) is Some && entries[n].statm is Some && pages_in(
            (entries[n].statm->0)@,
        ) is Some ==> sum_pages(entries, page_size, n + 1) == saturated(
            sum_pages(entries, page_size, n) + pages_in((entries[n].statm->0)@)->0 * page_size,
        ),
{
    assert(parsed_u32(entries[n].name@) is Some && entries[n].stat is Some && ticks_in(
        (entries[n].stat->0)@,
    ) is Some ==> entry_ticks(entries[n]) is Some);
}

/// The pages in use are the second number of a `statm`.
pub proof fn law_pages_in_use_are_read(fields: Seq<Seq<char>>, pages: u64)
    requires
        fields.len() >= 2,
        forall|i: int| 0 <= i < fields.len() ==> is_word(#[trigger] fields[i]),
        fields[1] == decimal(pages as nat),
    ensures
        pages_in(joined(fields, seq![' '])) == Some(pages),
{
    crate::pieces::law_words_are_read(fields);
    crate::numbers::law_read_undoes_decimal(pages as nat);
}

/// The members of a group are the processes that are in it, and no others.
pub proof fn law_groups_hold_their_processes(rows: Seq<ProcUse>, group: i32, n: int, pid: u32)
    requires
        0 <= n <= rows.len(),
    ensures
        group_members(rows, group, n).contains(pid) <==> exists|i: int|
            0 <= i < n && (#[trigger] rows[i]).pid == pid && rows[i].group == Some(group),
    decreases n,
{
    if n > 0 {
        law_groups_hold_their_processes(rows, group, n - 1, pid);
        let before = group_members(rows, group, n - 1);
        let all = group_members(rows, group, n);
        if before.contains(pid) {
            let k = choose|k: int| 0 <= k < before.len() && before[k] == pid;
            assert(all[k] == pid);
        }
        if rows[n - 1].group == Some(group) {
            assert(all[before.len() as int] == rows[n - 1].pid);
        }
        if all.contains(pid) && !before.contains(pid) {
            let k = choose|k: int| 0 <= k < all.len() && all[k] == pid;
            if k < before.len() {
                assert(before[k] == pid);
            }
        }
    }
}

/// The launcher counts among its descendants, and so does the child of everyone who does; nobody
/// else does.
pub proof fn law_children_of_descendants_descend(rows: Seq<ProcUse>, root: u32, pid: u32, i: int)
    ensures
        descends(rows, root, root),
        0 <= i < rows.len() && rows[i].parent is Some && descends(rows, root, rows[i].parent->0)
            ==> descends(rows, root, rows[i].pid),
        descends(rows, root, pid) && pid != root ==> exists|k: int|
            0 <= k < rows.len() && (#[trigger] rows[k]).pid == pid && rows[k].parent is Some
                && descends(rows, root, rows[k].parent->0),
{
    assert(within(rows, root, root, 0));
    if 0 <= i < rows.len() && rows[i].parent is Some && descends(rows, root, rows[i].parent->0) {
        let n = choose|n: nat| within(rows, root, rows[i].parent->0, n);
        assert(within(rows, root, rows[i].pid, n + 1));
    }
    if descends(rows, root, pid) && pid != root {
        let n = choose|n: nat| within(rows, root, pid, n);
        lemma_descendant_has_parent(rows, root, pid, n);
    }
}

proof fn lemma_descendant_has_parent(rows: Seq<ProcUse>, root: u32, pid: u32, n: nat)
    requires
        within(rows, root, pid, n),
        pid != root,
    ensures
        exists|k: int|
            0 <= k < rows.len() && (#[trigger] rows[k]).pid == pid && rows[k].parent is Some
                && descends(rows, root, rows[k].parent->0),
    decreases n,
{
    if n > 0 {
        let m = (n - 1) as nat;
        if within(rows, root, pid, m) {
            lemma_descendant_has_parent(rows, root, pid, m);
        } else {
            let k = choose|i: int|
                0 <= i < rows.len() && (#[trigger] rows[i]).pid == pid && rows[i].parent is Some
                    && within(rows, root, rows[i].parent->0, m);
            assert(descends(rows, root, rows[k].parent->0));
        }
    }
}

/// The memory of some processes is at least that of each of them, and nothing where none of them is
/// there.
pub proof fn law_memory_counts_each_process(rows: Seq<ProcUse>, pids: Seq<u32>, n: int, i: int)
    requires
        0 <= i < n <= rows.len(),
    ensures
        pids.contains(rows[i].pid) ==> memory_of(rows, pids, n) >= rows[i].memory,
        (forall|k: int| 0 <= k < n ==> !pids.contains((#[trigger] rows[k]).pid)) ==> memory_of(
            rows,
            pids,
            n,
        ) == 0,
        (forall|k: int| 0 <= k < n && k != i ==> !pids.contains((#[trigger] rows[k]).pid))
            && pids.contains(rows[i].pid) ==> memory_of(rows, pids, n) == rows[i].memory,
    decreases n,
{
    if i < n - 1 {
        law_memory_counts_each_process(rows, pids, n - 1, i);
    } else if n > 1 {
        law_memory_counts_each_process(rows, pids, n - 1, n - 2);
        if (forall|k: int| 0 <= k < n && k != i ==> !pids.contains((#[trigger] rows[k]).pid)) {
            assert(forall|k: int| 0 <= k < n - 1 ==> !pids.contains((#[trigger] rows[k]).pid));
        }
    } else {
        assert(memory_of(rows, pids, 0) == 0);
    }
    assert(rows[n - 1].pid == rows[n - 1].pid);
}

/// The space of a machine is that of the disk at its root, where that has any; without one it is
/// that of all its disks.
pub proof fn law_space_is_that_of_the_root(disks: Seq<DiskRow>, i: int)
    ensures
        0 <= i < disks.len() && disks[i].mount_point@ == "/"@ && disks[i].total > 0 && (forall|k: int|
            0 <= k < i ==> !at_root(#[trigger] disks[k])) ==> disk_space_of(disks) == (
            disks[i].total as nat,
            disks[i].free as nat,
        ),
        (forall|k: int| 0 <= k < disks.len() ==> !at_root(#[trigger] disks[k])) ==> disk_space_of(
            disks,
        ) == sum_space(disks, disks.len() as int),
{
    if 0 <= i < disks.len() && disks[i].mount_point@ == "/"@ && (forall|k: int|
        0 <= k < i ==> !at_root(#[trigger] disks[k])) {
        lemma_slash_is_root();
        lemma_root_found(disks, i);
    }
    if forall|k: int| 0 <= k < disks.len() ==> !at_root(#[trigger] disks[k]) {
        lemma_no_root(disks);
    }
}

proof fn lemma_slash_is_root()
    ensures
        parts("/"@) == seq![Part::Root],
{
    reveal_strlit("/");
    let none = Seq::<char>::empty();
    assert(!none.contains('/'));
    assert("/"@ =~= none.push('/') + none);
    crate::pieces::law_split_at_the_end(none, '/', none);
    crate::pieces::law_split_of_one_piece(none, '/');
    let p = seq![none].push(none);
    assert(crate::paths::parts_of(p, true, 0) =~= Seq::<Part>::empty());
    assert(crate::paths::parts_of(p, true, 1) =~= Seq::<Part>::empty());
    assert(crate::paths::parts_of(p, true, 2) =~= Seq::<Part>::empty());
    assert(parts("/"@) =~= seq![Part::Root]);
}

proof fn lemma_root_found(disks: Seq<DiskRow>, i: int)
    requires
        0 <= i < disks.len(),
        at_root(disks[i]),
        forall|k: int| 0 <= k < i ==> !at_root(#[trigger] disks[k]),
    ensures
        root_space(disks) == (disks[i].total as nat, disks[i].free as nat),
    decreases i,
{
    if i > 0 {
        assert(!at_root(disks[0]));
        let rest = disks.skip(1);
        assert forall|k: int| 0 <= k < i - 1 implies !at_root(#[trigger] rest[k]) by {
            assert(rest[k] == disks[k + 1]);
        }
        lemma_root_found(rest, i - 1);
    }
}

proof fn lemma_no_root(disks: Seq<DiskRow>)
    requires
        forall|k: int| 0 <= k < disks.len() ==> !at_root(#[trigger] disks[k]),
    ensures
        root_space(disks) == (0nat, 0nat),
    decreases disks.len(),
{
    if disks.len() > 0 {
        assert(!at_root(disks[0]));
        let rest = disks.skip(1);
        assert forall|k: int| 0 <= k < rest.len() implies !at_root(#[trigger] rest[k]) by {
            assert(rest[k] == disks[k + 1]);
        }
        lemma_no_root(rest);
    }
}

/// The space of all disks counts every disk: one disk more adds its space.
pub proof fn law_space_adds_up(disks: Seq<DiskRow>, more: DiskRow)
    ensures
        sum_space(disks.push(more), disks.len() as int + 1) == (
            sum_space(disks, disks.len() as int).0 + more.total as nat,
            sum_space(disks, disks.len() as int).1 + more.free as nat,
        ),
        sum_space(Seq::<DiskRow>::empty(), 0) == (0nat, 0nat),
{
    lemma_space_of_first(disks, more, disks.len() as int);
}

proof fn lemma_space_of_first(disks: Seq<DiskRow>, more: DiskRow, n: int)
    requires
        n <= disks.len(),
    ensures
        sum_space(disks.push(more), n) == sum_space(disks, n),
    decreases n,
{
    if n > 0 {
        lemma_space_of_first(disks, more, n - 1);
    }
}

/// What a disk has read and written is 512 bytes for each sector that its line tells of, in the
/// sixth field and in the tenth.
pub proof fn law_disk_traffic_is_read(fields: Seq<Seq<char>>, read: u64, written: u64)
    requires
        fields.len() >= 13,
        forall|i: int| 0 <= i < fields.len() ==> is_word(#[trigger] fields[i]),
        fields[5] == decimal(read as nat),
        fields[9] == decimal(written as nat),
    ensures
        io_on(joined(fields, seq![' '])) == (read as nat * 512, written as nat * 512),
{
    crate::pieces::law_words_are_read(fields);
    crate::numbers::law_read_undoes_decimal(read as nat);
    crate::numbers::law_read_undoes_decimal(written as nat);
}

/// The processes of a group are read line by line.
pub proof fn law_listed_processes_are_read(pids: Seq<u64>, n: int)
    requires
        0 <= n <= pids.len(),
    ensures
        pids_on(Seq::new(pids.len(), |i: int| decimal(pids[i] as nat)), n) == pids.take(n),
    decreases n,
{
    let lines = Seq::new(pids.len(), |i: int| decimal(pids[i] as nat));
    if n > 0 {
        law_listed_processes_are_read(pids, n - 1);
        let d = decimal(pids[n - 1] as nat);
        assert(lines[n - 1] == d);
        lemma_number_is_word(pids[n - 1] as nat);
        assert(!crate::text::is_space(d[0]) && !crate::text::is_space(d[d.len() - 1]));
        crate::text::lemma_trimmed_stays(d);
        crate::numbers::law_read_undoes_decimal(pids[n - 1] as nat);
        assert(pids.take(n) =~= pids.take(n - 1).push(pids[n - 1]));
    } else {
        assert(pids.take(0) =~= Seq::<u64>::empty());
    }
}

/// What the disks of a machine have read and written is counted line by line.
pub proof fn law_disk_traffic_adds_up(lines: Seq<Seq<char>>, more: Seq<char>)
    ensures
        sum_io(lines.push(more), lines.len() as int + 1) == (
            sum_io(lines, lines.len() as int).0 + io_on(more).0,
            sum_io(lines, lines.len() as int).1 + io_on(more).1,
        ),
        sum_io(lines, 0) == (0nat, 0nat),
{
    lemma_io_of_first(lines, more, lines.len() as int);
}

proof fn lemma_io_of_first(lines: Seq<Seq<char>>, more: Seq<char>, n: int)
    requires
        n <= lines.len(),
    ensures
        sum_io(lines.push(more), n) == sum_io(lines, n),
    decreases n,
{
    if n > 0 {
        lemma_io_of_first(lines, more, n - 1);
    }
}

} // verus!
