//! Short histories of measured values.

use vstd::prelude::*;

use crate::text::str_eq;

verus! {

/// The last `cap` values of a list, or all of them if it has fewer.
pub open spec fn latest<T>(s: Seq<T>, cap: nat) -> Seq<T> {
    if s.len() <= cap {
        s
    } else {
        s.skip(s.len() - cap)
    }
}

/// Adds a value to a history, and drops the oldest one if there are then more than `cap`.
pub fn record<T>(history: &mut Vec<T>, value: T, cap: usize)
    requires
        old(history)@.len() <= cap,
    ensures
        final(history)@ == latest(old(history)@.push(value), cap as nat),
        final(history)@.len() <= cap,
{
    let ghost all = history@.push(value);
    history.push(value);
    if history.len() > cap {
        history.remove(0);
        assert(history@ =~= all.skip(1));
    }
}

/// A history that was filled value by value holds the latest of them.
pub proof fn law_history_keeps_the_latest<T>(s: Seq<T>, value: T, cap: nat)
    ensures
        latest(latest(s, cap).push(value), cap) == latest(s.push(value), cap),
{
    assert(latest(latest(s, cap).push(value), cap) =~= latest(s.push(value), cap));
}

/// How many values the history of a worker holds.
pub const NODE_VALUES: usize = 20;

/// The history under a name, among the entries from `from` on: that of the first entry of the
/// name, or an empty one.
pub open spec fn history_from<T>(list: Seq<(String, Vec<T>)>, id: Seq<char>, from: int) -> Seq<T>
    decreases list.len() - from,
{
    if from < 0 || from >= list.len() {
        Seq::empty()
    } else if list[from].0@ == id {
        list[from].1@
    } else {
        history_from(list, id, from + 1)
    }
}

/// The history of a worker.
pub open spec fn history_of<T>(list: Seq<(String, Vec<T>)>, id: Seq<char>) -> Seq<T> {
    history_from(list, id, 0)
}

/// No history is longer than the room for it.
pub open spec fn in_room<T>(list: Seq<(String, Vec<T>)>, cap: nat) -> bool {
    forall|i: int| 0 <= i < list.len() ==> (#[trigger] list[i]).1@.len() <= cap
}

proof fn lemma_history_at<T>(list: Seq<(String, Vec<T>)>, id: Seq<char>, from: int, at: int)
    requires
        0 <= from <= at < list.len(),
        forall|j: int| from <= j < at ==> (#[trigger] list[j]).0@ != id,
        list[at].0@ == id,
    ensures
        history_from(list, id, from) == list[at].1@,
    decreases at - from,
{
    if from < at {
        lemma_history_at(list, id, from + 1, at);
    }
}

proof fn lemma_no_history<T>(list: Seq<(String, Vec<T>)>, id: Seq<char>, from: int)
    requires
        0 <= from <= list.len(),
        forall|j: int| from <= j < list.len() ==> (#[trigger] list[j]).0@ != id,
    ensures
        history_from(list, id, from) == Seq::<T>::empty(),
    decreases list.len() - from,
{
    if from < list.len() {
        lemma_no_history(list, id, from + 1);
    }
}

/// A history depends on the entries of its own name only.
proof fn lemma_other_history<T>(
    a: Seq<(String, Vec<T>)>,
    b: Seq<(String, Vec<T>)>,
    id: Seq<char>,
    from: int,
)
    requires
        0 <= from <= a.len() <= b.len(),
        forall|j: int|
            from <= j < a.len() ==> (#[trigger] a[j]).0@ == b[j].0@ && (a[j].0@ == id ==> a[j].1@
                == b[j].1@),
        forall|j: int| a.len() <= j < b.len() ==> (#[trigger] b[j]).0@ != id,
    ensures
        history_from(a, id, from) == history_from(b, id, from),
    decreases a.len() - from,
{
    if from < a.len() {
        assert(a[from].0@ == b[from].0@);
        lemma_other_history(a, b, id, from + 1);
    } else {
        lemma_no_history(b, id, from);
    }
}

/// Adds a value to the history of a worker, which starts with its first value; the histories of
/// the other workers stay as they are.
pub fn record_for<T>(list: &mut Vec<(String, Vec<T>)>, id: &str, value: T, cap: usize)
    requires
        in_room(old(list)@, cap as nat),
    ensures
        in_room(final(list)@, cap as nat),
        history_of(final(list)@, id@) == latest(
            history_of(old(list)@, id@).push(value),
            cap as nat,
        ),
        forall|other: Seq<char>|
            other != id@ ==> #[trigger] history_of(final(list)@, other) == history_of(
                old(list)@,
                other,
            ),
{
    let ghost before = list@;
    let mut i: usize = 0;
    while i < list.len() && !str_eq(&list[i].0, id)
        invariant
            list@ == before,
            i <= list@.len(),
            forall|j: int| 0 <= j < i ==> (#[trigger] before[j]).0@ != id@,
        decreases list@.len() - i,
    {
        i = i + 1;
    }
    if i < list.len() {
        proof {
            lemma_history_at(before, id@, 0, i as int);
        }
        let (name, mut values) = list.remove(i);
        record(&mut values, value, cap);
        list.insert(i, (name, values));
        proof {
            let after = list@;
            assert(after.len() == before.len());
            assert forall|j: int| 0 <= j < after.len() && j != i implies #[trigger] after[j]
                == before[j] by {}
            assert(after[i as int].0@ == id@);
            lemma_history_at(after, id@, 0, i as int);
            assert forall|other: Seq<char>| other != id@ implies #[trigger] history_of(after, other)
                == history_of(before, other) by {
                lemma_other_history(before, after, other, 0);
            }
        }
    } else {
        let mut values: Vec<T> = Vec::new();
        record(&mut values, value, cap);
        list.push((id.to_owned(), values));
        proof {
            let after = list@;
            lemma_no_history(before, id@, 0);
            lemma_history_at(after, id@, 0, before.len() as int);
            assert forall|other: Seq<char>| other != id@ implies #[trigger] history_of(after, other)
                == history_of(before, other) by {
                lemma_other_history(before, after, other, 0);
            }
        }
    }
}

/// What is measured of a running job, but for the share of the processors.
pub struct JobStats {
    pub job_id: u64,
    pub memory_usage_bytes: u64,
    pub is_idle: bool,
    pub idle_duration: u64,
    pub cgroup_active: bool,
}

/// How many measurements of a job the chart holds.
pub const CHARTED: usize = 300;

/// A measurement repeats the one before; `same_cpu` says whether the share of the processors
/// does.
pub open spec fn repeats(last: JobStats, next: JobStats, same_cpu: bool) -> bool {
    last.job_id == next.job_id && same_cpu && last.memory_usage_bytes == next.memory_usage_bytes
        && last.is_idle == next.is_idle && last.idle_duration == next.idle_duration
        && last.cgroup_active == next.cgroup_active
}

/// The measurements charted after one more: a repetition is left out, and where the chart is
/// full the oldest one makes room. Each comes with a share `C` of the processors, of which
/// `same_cpu` says whether the last one equals the new one.
pub open spec fn charted<C>(
    stats: Seq<(JobStats, C)>,
    next: (JobStats, C),
    same_cpu: bool,
) -> Seq<(JobStats, C)> {
    if stats.len() > 0 && repeats(stats.last().0, next.0, same_cpu) {
        stats
    } else if stats.len() >= CHARTED {
        stats.skip(1).push(next)
    } else {
        stats.push(next)
    }
}

pub fn chart<C>(stats: &mut Vec<(JobStats, C)>, next: (JobStats, C), same_cpu: bool)
    ensures
        final(stats)@ == charted(old(stats)@, next, same_cpu),
{
    let n: usize = stats.len();
    if n > 0 {
        let last: &(JobStats, C) = &stats[n - 1];
        if last.0.job_id == next.0.job_id && same_cpu && last.0.memory_usage_bytes
            == next.0.memory_usage_bytes && last.0.is_idle == next.0.is_idle
            && last.0.idle_duration == next.0.idle_duration && last.0.cgroup_active
            == next.0.cgroup_active {
            return;
        }
    }
    let ghost all = stats@;
    if n >= CHARTED {
        stats.remove(0);
        assert(stats@ =~= all.skip(1));
    }
    stats.push(next);
}

/// A chart never outgrows its room once it fits in it.
pub proof fn law_chart_is_bounded<C>(
    stats: Seq<(JobStats, C)>,
    next: (JobStats, C),
    same_cpu: bool,
)
    requires
        stats.len() <= CHARTED,
    ensures
        charted(stats, next, same_cpu).len() <= CHARTED,
{
}

/// A chart takes every measurement that is not the one before over again: one more at its end, with
/// the oldest dropped only where 300 are there. A measurement is the same only if all of it is.
pub proof fn law_charts_take_what_changes<C>(
    stats: Seq<(JobStats, C)>,
    next: (JobStats, C),
    same_cpu: bool,
)
    ensures
        stats.len() == 0 ==> charted(stats, next, same_cpu) == seq![next],
        !same_cpu ==> charted(stats, next, same_cpu).len() > 0 && charted(
            stats,
            next,
            same_cpu,
        ).last() == next,
        stats.len() > 0 && (stats.last().0.memory_usage_bytes != next.0.memory_usage_bytes
            || stats.last().0.job_id != next.0.job_id || stats.last().0.is_idle != next.0.is_idle
            || stats.last().0.idle_duration != next.0.idle_duration || stats.last().0.cgroup_active
            != next.0.cgroup_active) ==> charted(stats, next, same_cpu).last() == next,
        stats.len() > 0 && same_cpu && stats.last().0 == next.0 ==> charted(stats, next, same_cpu)
            == stats,
        charted(stats, next, same_cpu) != stats && stats.len() < 300 ==> charted(
            stats,
            next,
            same_cpu,
        ) == stats.push(next),
        charted(stats, next, same_cpu) != stats && stats.len() == 300 ==> charted(
            stats,
            next,
            same_cpu,
        ) == stats.drop_first().push(next),
{
    if stats.len() == 0 {
        assert(stats.push(next) =~= seq![next]);
    }
    if stats.len() >= 1 {
        assert(stats.skip(1) =~= stats.drop_first());
    }
}

/// A history has the value that came last at its end, and no more values than there is room for.
pub proof fn law_histories_end_with_the_latest<T>(s: Seq<T>, value: T, cap: nat)
    ensures
        cap > 0 ==> latest(s.push(value), cap).last() == value,
        latest(s, cap).len() == (if s.len() <= cap {
            s.len()
        } else {
            cap
        }),
{
}

} // verus!
