//! The history of the cluster: which part of it is asked for, and which workers stand out in it.

use vstd::prelude::*;

use crate::numbers::decimal;
use crate::numbers::decimal_u32;
use crate::numbers::decimal_u64;
use crate::numbers::decimal_usize;
use crate::order::reversed;
use crate::order::stable_sort;
use crate::order::stably_sorted;
use crate::order::take_first;
use crate::order::total_order;
use crate::text::str_eq;
use crate::web::format::format_rate;
use crate::web::format::rate_text;

verus! {

/// The seconds of a window that can be chosen; of any other, six hours.
pub open spec fn window_of(range: Seq<char>) -> nat {
    if range == "1h"@ {
        3600
    } else if range == "24h"@ {
        86400
    } else if range == "7d"@ {
        604800
    } else {
        21600
    }
}

pub fn range_seconds(range: &str) -> (r: u64)
    ensures
        r == window_of(range@),
{
    if str_eq(range, "1h") {
        3600
    } else if str_eq(range, "24h") {
        86400
    } else if str_eq(range, "7d") {
        604800
    } else {
        21600
    }
}

/// The seconds that are taken together: a 180th of the window, but at least half a minute and at
/// most six hours.
pub open spec fn bucket_of(window: nat) -> nat {
    if window / 180 < 30 {
        30
    } else if window / 180 > 21600 {
        21600
    } else {
        window / 180
    }
}

pub fn bucket_seconds_for_window(window: u64) -> (r: u64)
    ensures
        r == bucket_of(window as nat),
{
    let part: u64 = window / 180;
    if part < 30 {
        30
    } else if part > 21600 {
        21600
    } else {
        part
    }
}

/// Where the history up to `now` is asked for.
pub open spec fn history_path(now: nat, range: Seq<char>) -> Seq<char> {
    let window = window_of(range);
    let start = if now > window {
        (now - window) as nat
    } else {
        0
    };
    "/api/v1/metrics/nodes?start="@ + decimal(start) + "&end="@ + decimal(now)
        + "&bucket_seconds="@ + decimal(bucket_of(window))
}

pub fn history_url(now: u64, range: &str) -> (r: String)
    ensures
        r@ == history_path(now as nat, range@),
{
    let window: u64 = range_seconds(range);
    let start: u64 = if now > window {
        now - window
    } else {
        0
    };
    let mut r: String = "/api/v1/metrics/nodes?start=".to_string();
    r.append(&decimal_u64(start));
    r.append("&end=");
    r.append(&decimal_u64(now));
    r.append("&bucket_seconds=");
    r.append(&decimal_u64(bucket_seconds_for_window(window)));
    r
}

/// No window is cut into more than 180 parts and a rest.
pub proof fn law_windows_have_few_buckets(range: Seq<char>)
    ensures
        window_of(range) / bucket_of(window_of(range)) <= 180,
        bucket_of(window_of(range)) * (window_of(range) / bucket_of(window_of(range)))
            == window_of(range),
{
    assert(604800int / 3360int == 180);
    assert(86400int / 480int == 180);
    assert(21600int / 120int == 180);
    assert(3600int / 30int == 120);
}

/// What is said if the history cannot be had.
pub fn metrics_http_failure(status: u16) -> (r: String)
    ensures
        r@ == "Metrics request failed with HTTP "@ + decimal(status as nat),
{
    let mut r: String = "Metrics request failed with HTTP ".to_string();
    r.append(&decimal_u32(status as u32));
    r
}

pub fn metrics_request_failure(error: &str) -> (r: String)
    ensures
        r@ == "Metrics request failed: "@ + error@,
{
    let mut r: String = "Metrics request failed: ".to_string();
    r.append(error);
    r
}

pub fn metrics_decode_failure(error: &str) -> (r: String)
    ensures
        r@ == "Failed to decode metrics: "@ + error@,
{
    let mut r: String = "Failed to decode metrics: ".to_string();
    r.append(error);
    r
}

/// What a worker moved, on average, in one part of the window.
pub struct IoSample {
    pub net_rx_avg: u64,
    pub net_tx_avg: u64,
    pub disk_read_avg: u64,
    pub disk_write_avg: u64,
}

/// The history of one worker.
pub struct NodeSeries {
    pub node_id: String,
    pub hostname: Option<String>,
    pub samples: Vec<IoSample>,
}

/// What a worker is called: its host name, or its number if that is not known.
pub open spec fn label_of(node: NodeSeries) -> Seq<char> {
    if node.hostname is Some && node.hostname->0@.len() > 0 {
        node.hostname->0@
    } else {
        node.node_id@
    }
}

pub fn node_label(node: &NodeSeries) -> (r: String)
    ensures
        r@ == label_of(*node),
{
    match &node.hostname {
        Some(hostname) => if hostname.as_str().is_empty() {
            node.node_id.clone()
        } else {
            hostname.clone()
        },
        None => node.node_id.clone(),
    }
}

pub open spec fn net_of() -> spec_fn(IoSample) -> nat {
    |s: IoSample| (s.net_rx_avg + s.net_tx_avg) as nat
}

pub open spec fn disk_of() -> spec_fn(IoSample) -> nat {
    |s: IoSample| (s.disk_read_avg + s.disk_write_avg) as nat
}

pub open spec fn sum_samples(samples: Seq<IoSample>, f: spec_fn(IoSample) -> nat) -> nat
    decreases samples.len(),
{
    if samples.len() == 0 {
        0
    } else {
        sum_samples(samples.drop_last(), f) + f(samples.last())
    }
}

/// The average of an amount over the samples, without a fraction; none give none.
pub open spec fn average(samples: Seq<IoSample>, f: spec_fn(IoSample) -> nat) -> nat {
    if samples.len() == 0 {
        0
    } else {
        sum_samples(samples, f) / samples.len()
    }
}

pub open spec fn total_average(samples: Seq<IoSample>) -> nat {
    average(samples, net_of()) + average(samples, disk_of())
}

/// What a worker moved can be counted.
pub open spec fn countable(samples: Seq<IoSample>) -> bool {
    &&& sum_samples(samples, net_of()) <= u64::MAX
    &&& sum_samples(samples, disk_of()) <= u64::MAX
    &&& total_average(samples) <= u64::MAX
}

proof fn lemma_sum_samples_take(samples: Seq<IoSample>, n: int, f: spec_fn(IoSample) -> nat)
    requires
        0 <= n <= samples.len(),
    ensures
        sum_samples(samples.take(n), f) <= sum_samples(samples, f),
    decreases samples.len() - n,
{
    if n < samples.len() {
        lemma_sum_samples_take(samples, n + 1, f);
        assert(samples.take(n + 1).drop_last() =~= samples.take(n));
    } else {
        assert(samples.take(n) =~= samples);
    }
}

/// The average of what was moved over the network or, if not that, to and from the disks.
fn checked_average(samples: &Vec<IoSample>, net: bool) -> (r: Option<u64>)
    ensures
        ({
            let f = if net {
                net_of()
            } else {
                disk_of()
            };
            &&& r is Some <==> sum_samples(samples@, f) <= u64::MAX
            &&& r matches Some(avg) ==> avg as nat == average(samples@, f)
        }),
{
    let ghost f = if net {
        net_of()
    } else {
        disk_of()
    };
    let n: usize = samples.len();
    if n == 0 {
        return Some(0);
    }
    let mut sum: u64 = 0;
    let mut i: usize = 0;
    assert(samples@.take(0) =~= Seq::<IoSample>::empty());
    while i < n
        invariant
            i <= n,
            n == samples@.len(),
            f == (if net {
                net_of()
            } else {
                disk_of()
            }),
            sum == sum_samples(samples@.take(i as int), f),
        decreases n - i,
    {
        proof {
            assert(samples@.take(i + 1).drop_last() =~= samples@.take(i as int));
            assert(samples@.take(i + 1).last() == samples@[i as int]);
            lemma_sum_samples_take(samples@, i + 1, f);
        }
        let s: &IoSample = &samples[i];
        let (a, b): (u64, u64) = if net {
            (s.net_rx_avg, s.net_tx_avg)
        } else {
            (s.disk_read_avg, s.disk_write_avg)
        };
        let moved: u64 = match a.checked_add(b) {
            Some(moved) => moved,
            None => {
                return None;
            },
        };
        match sum.checked_add(moved) {
            Some(more) => {
                sum = more;
            },
            None => {
                return None;
            },
        }
        i = i + 1;
    }
    assert(samples@.take(n as int) =~= samples@);
    let avg: u64 = sum / (n as u64);
    Some(avg)
}

pub fn avg_net_io(node: &NodeSeries) -> (r: u64)
    requires
        sum_samples(node.samples@, net_of()) <= u64::MAX,
    ensures
        r == average(node.samples@, net_of()),
{
    match checked_average(&node.samples, true) {
        Some(avg) => avg,
        None => 0,
    }
}

pub fn avg_disk_io(node: &NodeSeries) -> (r: u64)
    requires
        sum_samples(node.samples@, disk_of()) <= u64::MAX,
    ensures
        r == average(node.samples@, disk_of()),
{
    match checked_average(&node.samples, false) {
        Some(avg) => avg,
        None => 0,
    }
}

pub fn avg_total_io(node: &NodeSeries) -> (r: u64)
    requires
        countable(node.samples@),
    ensures
        r == total_average(node.samples@),
{
    avg_net_io(node) + avg_disk_io(node)
}

/// Whether what a worker moved can be counted.
pub fn can_average(node: &NodeSeries) -> (r: bool)
    ensures
        r == countable(node.samples@),
{
    match (checked_average(&node.samples, true), checked_average(&node.samples, false)) {
        (Some(net), Some(disk)) => match net.checked_add(disk) {
            Some(_) => true,
            None => false,
        },
        _ => false,
    }
}

pub open spec fn all_countable(nodes: Seq<NodeSeries>) -> bool {
    forall|i: int| 0 <= i < nodes.len() ==> countable((#[trigger] nodes[i]).samples@)
}

/// How many workers the heat map shows.
pub const HEAT_ROWS: usize = 18;

/// The workers that the heat map shows: the first ones.
pub fn heat_rows(nodes: Vec<NodeSeries>) -> (r: Vec<NodeSeries>)
    ensures
        r@ == nodes@.take(
            if nodes@.len() < HEAT_ROWS {
                nodes@.len() as int
            } else {
                HEAT_ROWS as int
            },
        ),
{
    let ghost all = nodes@;
    let mut r: Vec<NodeSeries> = nodes;
    if r.len() > HEAT_ROWS {
        r.truncate(HEAT_ROWS);
    }
    assert(r@ =~= all.take(
        if all.len() < HEAT_ROWS {
            all.len() as int
        } else {
            HEAT_ROWS as int
        },
    ));
    r
}

/// What was moved in the last part of the window, in all; nothing, if there is none.
pub open spec fn latest_io_of(cluster: Seq<IoSample>) -> nat {
    if cluster.len() == 0 {
        0
    } else {
        let last = cluster.last();
        (last.net_rx_avg + last.net_tx_avg + last.disk_read_avg + last.disk_write_avg) as nat
    }
}

/// What was moved in the last part of the window, in all; none, where that cannot be counted.
pub fn latest_io(cluster: &Vec<IoSample>) -> (r: Option<u64>)
    ensures
        r is Some <==> latest_io_of(cluster@) <= u64::MAX,
        r matches Some(io) ==> io as nat == latest_io_of(cluster@),
{
    let n: usize = cluster.len();
    if n == 0 {
        return Some(0);
    }
    let last: &IoSample = &cluster[n - 1];
    match last.net_rx_avg.checked_add(last.net_tx_avg) {
        Some(net) => match net.checked_add(last.disk_read_avg) {
            Some(more) => more.checked_add(last.disk_write_avg),
            None => None,
        },
        None => None,
    }
}

/// What a card of the summary says: its value, and the line below it.
pub struct SummaryCard {
    pub value: String,
    pub detail: String,
}

/// The card that counts the workers.
pub fn nodes_card(node_count: usize, sample_count: usize) -> (r: SummaryCard)
    ensures
        r.value@ == decimal(node_count as nat),
        r.detail@ == decimal(sample_count as nat) + " raw samples"@,
{
    let mut detail: String = decimal_usize(sample_count);
    detail.append(" raw samples");
    SummaryCard { value: decimal_usize(node_count), detail }
}

/// The card of the latest I/O rate; `start` and `end` are the times at the ends of the window. None,
/// where the rate cannot be counted.
pub fn io_card(cluster: &Vec<IoSample>, start: &str, end: &str) -> (r: Option<SummaryCard>)
    ensures
        r is Some <==> latest_io_of(cluster@) <= u64::MAX,
        r matches Some(card) ==> card.value@ == rate_text(latest_io_of(cluster@)) && card.detail@
            == start@ + " to "@ + end@,
{
    match latest_io(cluster) {
        Some(io) => {
            let mut detail: String = start.to_string();
            detail.append(" to ");
            detail.append(end);
            Some(SummaryCard { value: format_rate(io), detail })
        },
        None => None,
    }
}

/// How many workers the ridges show.
pub const RIDGES: usize = 6;

/// Workers with what they moved, the one that moved most first.
pub open spec fn busiest_first() -> spec_fn((u64, NodeSeries), (u64, NodeSeries)) -> bool {
    |a: (u64, NodeSeries), b: (u64, NodeSeries)| b.0 <= a.0
}

/// Each worker with what it moved.
pub open spec fn with_totals(nodes: Seq<NodeSeries>) -> Seq<(u64, NodeSeries)> {
    Seq::new(nodes.len(), |i: int| (total_average(nodes[i].samples@) as u64, nodes[i]))
}

/// The workers that moved most, with what they moved; of those that moved the same, the ones
/// that came first.
pub fn io_ridges(nodes: Vec<NodeSeries>) -> (r: Vec<(u64, NodeSeries)>)
    requires
        all_countable(nodes@),
    ensures
        exists|all: Seq<(u64, NodeSeries)>| #[trigger]
            stably_sorted(all, with_totals(nodes@), busiest_first()) && r@ == all.take(
                if all.len() < RIDGES {
                    all.len() as int
                } else {
                    RIDGES as int
                },
            ),
{
    let ghost given = nodes@;
    let n: usize = nodes.len();
    let mut rest: Vec<NodeSeries> = reversed(nodes);
    let mut pairs: Vec<(u64, NodeSeries)> = Vec::new();
    let mut i: usize = 0;
    assert(given.skip(0) =~= given);
    while i < n
        invariant
            i <= n,
            n == given.len(),
            all_countable(given),
            rest@ == given.skip(i as int).reverse(),
            pairs@ == with_totals(given).take(i as int),
        decreases n - i,
    {
        let node: NodeSeries = take_first(&mut rest, Ghost(given), Ghost(i as int));
        assert(node == given[i as int]);
        assert(countable(given[i as int].samples@));
        let total: u64 = avg_total_io(&node);
        pairs.push((total, node));
        i = i + 1;
        assert(pairs@ =~= with_totals(given).take(i as int));
    }
    assert(pairs@ =~= with_totals(given));
    let at_most = |a: &(u64, NodeSeries), b: &(u64, NodeSeries)| -> (q: bool)
        ensures
            (q == busiest_first()(*a, *b)),
        { b.0 <= a.0 };
    assert(total_order(busiest_first()));
    let mut r: Vec<(u64, NodeSeries)> = stable_sort(pairs, at_most, Ghost(busiest_first()));
    let ghost all = r@;
    if r.len() > RIDGES {
        r.truncate(RIDGES);
    }
    assert(r@ =~= all.take(
        if all.len() < RIDGES {
            all.len() as int
        } else {
            RIDGES as int
        },
    ));
    r
}

/// The most that any worker moved, or one if none moved anything.
pub open spec fn is_scale(m: u64, nodes: Seq<NodeSeries>) -> bool {
    &&& m >= 1
    &&& forall|i: int| 0 <= i < nodes.len() ==> total_average((#[trigger] nodes[i]).samples@) <= m
    &&& m == 1 || exists|i: int|
        0 <= i < nodes.len() && total_average((#[trigger] nodes[i]).samples@) == m
}

/// What a full ridge stands for.
pub fn ridge_scale(nodes: &Vec<NodeSeries>) -> (r: u64)
    requires
        all_countable(nodes@),
    ensures
        is_scale(r, nodes@),
{
    let mut m: u64 = 1;
    let mut i: usize = 0;
    while i < nodes.len()
        invariant
            i <= nodes@.len(),
            all_countable(nodes@),
            m >= 1,
            forall|k: int|
                0 <= k < i ==> total_average((#[trigger] nodes@[k]).samples@) <= m,
            m == 1 || exists|k: int|
                0 <= k < i && total_average((#[trigger] nodes@[k]).samples@) == m,
        decreases nodes@.len() - i,
    {
        assert(countable(nodes@[i as int].samples@));
        let total: u64 = avg_total_io(&nodes[i]);
        if total > m {
            m = total;
        }
        i = i + 1;
    }
    m
}

/// How many columns the map of loads has: as many as the longest history, but at least one.
pub fn heat_columns(nodes: &Vec<NodeSeries>) -> (r: usize)
    ensures
        r >= 1,
        forall|i: int| 0 <= i < nodes@.len() ==> (#[trigger] nodes@[i]).samples@.len() <= r,
        r == 1 || exists|i: int|
            0 <= i < nodes@.len() && (#[trigger] nodes@[i]).samples@.len() == r,
{
    let mut m: usize = 1;
    let mut i: usize = 0;
    while i < nodes.len()
        invariant
            i <= nodes@.len(),
            m >= 1,
            forall|k: int| 0 <= k < i ==> (#[trigger] nodes@[k]).samples@.len() <= m,
            m == 1 || exists|k: int| 0 <= k < i && (#[trigger] nodes@[k]).samples@.len() == m,
        decreases nodes@.len() - i,
    {
        let len: usize = nodes[i].samples.len();
        if len > m {
            m = len;
        }
        i = i + 1;
    }
    m
}

/// A measured level: a number that orders it among others, and how it is written.
pub struct Level {
    pub key: i64,
    pub text: String,
}

/// What is known of a worker when the ones that stand out are picked.
pub struct Mover {
    pub label: String,
    pub cpu_peak: Level,
    pub memory_peak: Level,
    pub io: u64,
    pub cpu_average: Level,
}

/// A card for a worker that stands out.
pub struct TopMover {
    pub label: &'static str,
    pub value: String,
    pub detail: String,
    pub accent: &'static str,
}

/// The first of those with the highest key.
pub open spec fn first_highest(s: Seq<Mover>, key: spec_fn(Mover) -> int, i: int) -> bool {
    &&& 0 <= i < s.len()
    &&& forall|j: int| 0 <= j < s.len() ==> key(#[trigger] s[j]) <= key(s[i])
    &&& forall|j: int| 0 <= j < i ==> key(#[trigger] s[j]) < key(s[i])
}

pub open spec fn by_cpu_peak() -> spec_fn(Mover) -> int {
    |m: Mover| m.cpu_peak.key as int
}

pub open spec fn by_memory_peak() -> spec_fn(Mover) -> int {
    |m: Mover| m.memory_peak.key as int
}

pub open spec fn by_io() -> spec_fn(Mover) -> int {
    |m: Mover| m.io as int
}

/// The quieter a worker, the higher.
pub open spec fn by_quiet() -> spec_fn(Mover) -> int {
    |m: Mover| -m.cpu_average.key
}

/// The four that stand out: by the peak of its processors, by the peak of its memory, by what it
/// moved, and by being quiet.
pub open spec fn stands_out(cards: Seq<TopMover>, s: Seq<Mover>) -> bool {
    &&& cards.len() == 4
    &&& cards[0].label@ == "CPU peak"@ && cards[0].accent@ == "var(--primary)"@
    &&& cards[1].label@ == "Memory peak"@ && cards[1].accent@ == "var(--warning)"@
    &&& cards[2].label@ == "I/O average"@ && cards[2].accent@ == "var(--success)"@
    &&& cards[3].label@ == "Quietest node"@ && cards[3].accent@ == "var(--text-muted)"@
    &&& exists|i: int|
        #![trigger s[i]]
        first_highest(s, by_cpu_peak(), i) && cards[0].value@ == s[i].cpu_peak.text@
            && cards[0].detail@ == s[i].label@
    &&& exists|i: int|
        #![trigger s[i]]
        first_highest(s, by_memory_peak(), i) && cards[1].value@ == s[i].memory_peak.text@
            && cards[1].detail@ == s[i].label@
    &&& exists|i: int|
        #![trigger s[i]]
        first_highest(s, by_io(), i) && cards[2].value@ == rate_text(s[i].io as nat)
            && cards[2].detail@ == s[i].label@
    &&& exists|i: int|
        #![trigger s[i]]
        first_highest(s, by_quiet(), i) && cards[3].value@ == s[i].cpu_average.text@
            && cards[3].detail@ == s[i].label@
}

/// The workers that stand out; none do where there are none.
pub fn top_movers(movers: &Vec<Mover>) -> (r: Vec<TopMover>)
    ensures
        movers@.len() == 0 ==> r@.len() == 0,
        movers@.len() > 0 ==> stands_out(r@, movers@),
{
    let mut r: Vec<TopMover> = Vec::new();
    let n: usize = movers.len();
    if n == 0 {
        return r;
    }
    let mut cpu: usize = 0;
    let mut memory: usize = 0;
    let mut io: usize = 0;
    let mut quiet: usize = 0;
    let mut i: usize = 1;
    while i < n
        invariant
            1 <= i <= n,
            n == movers@.len(),
            first_highest(movers@.take(i as int), by_cpu_peak(), cpu as int),
            first_highest(movers@.take(i as int), by_memory_peak(), memory as int),
            first_highest(movers@.take(i as int), by_io(), io as int),
            first_highest(movers@.take(i as int), by_quiet(), quiet as int),
        decreases n - i,
    {
        let ghost seen = movers@.take(i as int);
        let ghost now = movers@.take(i + 1);
        proof {
            assert forall|j: int| 0 <= j < i implies now[j] == #[trigger] seen[j] by {}
            assert(now[i as int] == movers@[i as int]);
        }
        let m: &Mover = &movers[i];
        let ghost (c, e, o, q) = (cpu as int, memory as int, io as int, quiet as int);
        if m.cpu_peak.key > movers[cpu].cpu_peak.key {
            cpu = i;
        }
        if m.memory_peak.key > movers[memory].memory_peak.key {
            memory = i;
        }
        if m.io > movers[io].io {
            io = i;
        }
        if m.cpu_average.key < movers[quiet].cpu_average.key {
            quiet = i;
        }
        proof {
            lemma_highest_step(seen, now, by_cpu_peak(), c);
            lemma_highest_step(seen, now, by_memory_peak(), e);
            lemma_highest_step(seen, now, by_io(), o);
            lemma_highest_step(seen, now, by_quiet(), q);
        }
        i = i + 1;
    }
    assert(movers@.take(n as int) =~= movers@);
    r.push(
        TopMover {
            label: "CPU peak",
            value: movers[cpu].cpu_peak.text.clone(),
            detail: movers[cpu].label.clone(),
            accent: "var(--primary)",
        },
    );
    r.push(
        TopMover {
            label: "Memory peak",
            value: movers[memory].memory_peak.text.clone(),
            detail: movers[memory].label.clone(),
            accent: "var(--warning)",
        },
    );
    r.push(
        TopMover {
            label: "I/O average",
            value: format_rate(movers[io].io),
            detail: movers[io].label.clone(),
            accent: "var(--success)",
        },
    );
    r.push(
        TopMover {
            label: "Quietest node",
            value: movers[quiet].cpu_average.text.clone(),
            detail: movers[quiet].label.clone(),
            accent: "var(--text-muted)",
        },
    );
    proof {
        let s = movers@;
        assert(s[cpu as int] == s[cpu as int] && s[memory as int] == s[memory as int]);
        assert(first_highest(s, by_cpu_peak(), cpu as int));
        assert(stands_out(r@, s));
    }
    r
}

proof fn lemma_highest_step(
    seen: Seq<Mover>,
    now: Seq<Mover>,
    key: spec_fn(Mover) -> int,
    best: int,
)
    requires
        now.len() == seen.len() + 1,
        forall|j: int| 0 <= j < seen.len() ==> now[j] == #[trigger] seen[j],
        first_highest(seen, key, best),
    ensures
        first_highest(
            now,
            key,
            if key(now[seen.len() as int]) > key(now[best]) {
                seen.len() as int
            } else {
                best
            },
        ),
{
    let last = seen.len() as int;
    assert forall|j: int| 0 <= j < last implies key(#[trigger] now[j]) <= key(now[best]) by {
        assert(now[j] == seen[j]);
        assert(now[best] == seen[best]);
    }
    assert forall|j: int| 0 <= j < best implies key(#[trigger] now[j]) < key(now[best]) by {
        assert(now[j] == seen[j]);
        assert(now[best] == seen[best]);
    }
}

/// The windows that can be chosen are an hour, a day and a week; whatever else is chosen stands for
/// six hours.
pub proof fn law_windows_are_as_long_as_they_say(range: Seq<char>)
    ensures
        window_of("1h"@) == 60 * 60,
        window_of("24h"@) == 24 * 60 * 60,
        window_of("7d"@) == 7 * 24 * 60 * 60,
        range != "1h"@ && range != "24h"@ && range != "7d"@ ==> window_of(range) == 6 * 60 * 60,
{
    reveal_strlit("1h");
    reveal_strlit("24h");
    reveal_strlit("7d");
    assert("1h"@.len() == 2);
    assert("24h"@.len() == 3);
    assert("7d"@.len() == 2);
    assert("1h"@[0] != "7d"@[0]);
}

/// What is taken together is never less than half a minute and never more than six hours; in between
/// it is the 180th part of the window.
pub proof fn law_buckets_keep_to_their_bounds(window: nat)
    ensures
        30 <= bucket_of(window) <= 6 * 60 * 60,
        30 < bucket_of(window) < 6 * 60 * 60 ==> 180 * bucket_of(window) <= window < 180 * (
        bucket_of(window) + 1),
        window <= 180 * 30 ==> bucket_of(window) == 30,
        window >= 180 * 6 * 60 * 60 ==> bucket_of(window) == 6 * 60 * 60,
{
}

/// The history that is asked for ends now and starts a window before, or at the beginning of time;
/// the request says so.
pub proof fn law_histories_end_now(now: nat, start: nat, range: Seq<char>)
    requires
        start + window_of(range) == now || (now < window_of(range) && start == 0),
    ensures
        crate::pieces::split_on(history_path(now, range), '&') == seq![
            "/api/v1/metrics/nodes?start="@ + decimal(start),
            "end="@ + decimal(now),
            "bucket_seconds="@ + decimal(bucket_of(window_of(range))),
        ],
{
    reveal_strlit("/api/v1/metrics/nodes?start=");
    reveal_strlit("&end=");
    reveal_strlit("end=");
    reveal_strlit("&bucket_seconds=");
    reveal_strlit("bucket_seconds=");
    let b = bucket_of(window_of(range));
    let p0 = "/api/v1/metrics/nodes?start="@ + decimal(start);
    let p1 = "end="@ + decimal(now);
    let p2 = "bucket_seconds="@ + decimal(b);
    lemma_no_amp("/api/v1/metrics/nodes?start="@, start);
    lemma_no_amp("end="@, now);
    lemma_no_amp("bucket_seconds="@, b);
    crate::pieces::law_split_of_one_piece(p0, '&');
    crate::pieces::law_split_at_the_end(p0, '&', p1);
    let t1 = p0.push('&') + p1;
    crate::pieces::law_split_at_the_end(t1, '&', p2);
    let t2 = t1.push('&') + p2;
    assert(p0 + "&end="@ + decimal(now) =~= t1);
    assert(history_path(now, range) =~= t2);
    assert(seq![p0].push(p1).push(p2) =~= seq![p0, p1, p2]);
}

proof fn lemma_no_amp(a: Seq<char>, n: nat)
    requires
        !a.contains('&'),
    ensures
        !(a + decimal(n)).contains('&'),
{
    let s = a + decimal(n);
    crate::numbers::lemma_decimal_digits(n);
    if s.contains('&') {
        let i = choose|i: int| 0 <= i < s.len() && s[i] == '&';
        if i < a.len() {
            assert(a[i] == '&');
        } else {
            assert(crate::numbers::is_digit(decimal(n)[i - a.len()]));
        }
    }
}

/// A worker is called by its host name where that is known and not empty, and otherwise by its own
/// name.
pub proof fn law_workers_are_called_by_their_host(node: NodeSeries)
    ensures
        node.hostname is Some && node.hostname->0@.len() > 0 ==> label_of(node)
            == node.hostname->0@,
        node.hostname is None ==> label_of(node) == node.node_id@,
        node.hostname is Some && node.hostname->0@.len() == 0 ==> label_of(node) == node.node_id@,
{
}

/// What a worker moved over the network is what it received and sent, and what it moved on its disks
/// what it read and wrote.
pub proof fn law_traffic_goes_both_ways(s: IoSample)
    ensures
        net_of()(s) == s.net_rx_avg + s.net_tx_avg,
        disk_of()(s) == s.disk_read_avg + s.disk_write_avg,
        latest_io_of(seq![s]) == net_of()(s) + disk_of()(s),
{
    assert(seq![s].last() == s);
}

/// Every sample counts in a sum, and an average is the sum parted among the samples, without its
/// fraction; that of a worker is that of its network and its disks together.
pub proof fn law_averages_part_the_sum(
    samples: Seq<IoSample>,
    more: IoSample,
    f: spec_fn(IoSample) -> nat,
)
    ensures
        sum_samples(samples.push(more), f) == sum_samples(samples, f) + f(more),
        samples.len() == 0 ==> average(samples, f) == 0,
        samples.len() > 0 ==> samples.len() * average(samples, f) <= sum_samples(samples, f)
            < samples.len() * (average(samples, f) + 1),
        total_average(samples) == average(samples, net_of()) + average(samples, disk_of()),
{
    assert(samples.push(more).drop_last() =~= samples);
    if samples.len() > 0 {
        let n = samples.len();
        let sum = sum_samples(samples, f);
        let a = sum / n;
        assert(n * a <= sum < n * (a + 1)) by (nonlinear_arith)
            requires
                a == sum / n,
                n > 0,
        ;
    }
}

/// The workers that moved most come first.
pub proof fn law_busiest_workers_come_first(
    all: Seq<(u64, NodeSeries)>,
    nodes: Seq<NodeSeries>,
    i: int,
    j: int,
)
    requires
        stably_sorted(all, with_totals(nodes), busiest_first()),
        0 <= i <= j < all.len(),
    ensures
        all[i].0 >= all[j].0,
{
    assert(busiest_first()(all[i], all[j]));
}

/// The workers that stand out are those that say so: none has a higher peak of its processors or its
/// memory or moved more than the one that is shown for it, and none is quieter than the quietest.
pub proof fn law_nobody_stands_out_more(cards: Seq<TopMover>, s: Seq<Mover>, j: int)
    requires
        stands_out(cards, s),
        0 <= j < s.len(),
    ensures
        exists|i: int|
            0 <= i < s.len() && cards[0].detail@ == (#[trigger] s[i]).label@ && cards[0].value@
                == s[i].cpu_peak.text@ && s[j].cpu_peak.key <= s[i].cpu_peak.key,
        exists|i: int|
            0 <= i < s.len() && cards[1].detail@ == (#[trigger] s[i]).label@ && cards[1].value@
                == s[i].memory_peak.text@ && s[j].memory_peak.key <= s[i].memory_peak.key,
        exists|i: int|
            0 <= i < s.len() && cards[2].detail@ == (#[trigger] s[i]).label@ && cards[2].value@
                == rate_text(s[i].io as nat) && s[j].io <= s[i].io,
        exists|i: int|
            0 <= i < s.len() && cards[3].detail@ == (#[trigger] s[i]).label@ && cards[3].value@
                == s[i].cpu_average.text@ && s[i].cpu_average.key <= s[j].cpu_average.key,
{
    let a = choose|i: int|
        #![trigger s[i]]
        first_highest(s, by_cpu_peak(), i) && cards[0].value@ == s[i].cpu_peak.text@
            && cards[0].detail@ == s[i].label@;
    assert(by_cpu_peak()(s[j]) <= by_cpu_peak()(s[a]));
    let b = choose|i: int|
        #![trigger s[i]]
        first_highest(s, by_memory_peak(), i) && cards[1].value@ == s[i].memory_peak.text@
            && cards[1].detail@ == s[i].label@;
    assert(by_memory_peak()(s[j]) <= by_memory_peak()(s[b]));
    let c = choose|i: int|
        #![trigger s[i]]
        first_highest(s, by_io(), i) && cards[2].value@ == rate_text(s[i].io as nat)
            && cards[2].detail@ == s[i].label@;
    assert(by_io()(s[j]) <= by_io()(s[c]));
    let d = choose|i: int|
        #![trigger s[i]]
        first_highest(s, by_quiet(), i) && cards[3].value@ == s[i].cpu_average.text@
            && cards[3].detail@ == s[i].label@;
    assert(by_quiet()(s[j]) <= by_quiet()(s[d]));
}

} // verus!
