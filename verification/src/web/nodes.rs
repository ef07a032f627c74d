//! The lists of workers, as the pages of the console narrow them down.

use vstd::prelude::*;

use crate::text::has_text;
use crate::text::lowercase;
use crate::text::lowercased;
use crate::text::str_eq;
use crate::text::texts;
use crate::web::info::WorkerInfo;
use crate::web::listing::found_in;
use crate::web::listing::keep;
use crate::web::listing::page_of;
use crate::web::listing::take_page;
use crate::web::listing::text_found;
use crate::web::topology::busy_cores;
use crate::web::topology::busy_cores_of;

verus! {

/// The pages that list workers.
#[derive(Clone, Copy, PartialEq, Eq, Structural)]
pub enum NodeList {
    /// The page of the cluster.
    Cluster,
    /// The list beside the compute grid.
    Grid,
    /// The page for administrators.
    Admin,
}

impl NodeList {
    pub open spec fn size(self) -> nat {
        match self {
            NodeList::Cluster => 15,
            NodeList::Grid => 10,
            NodeList::Admin => 3,
        }
    }

    /// How many workers stand on a page.
    pub fn page_size(self) -> (r: usize)
        ensures
            r == self.size(),
    {
        match self {
            NodeList::Cluster => 15,
            NodeList::Grid => 10,
            NodeList::Admin => 3,
        }
    }
}

/// The texts that a worker is searched by, in lower case.
pub open spec fn searched_texts(w: WorkerInfo, list: NodeList) -> Seq<Seq<char>> {
    match list {
        NodeList::Cluster => seq![
            lowercased(w.hostname@),
            lowercased(w.ip_address@),
            lowercased(w.id@),
            lowercased(w.os_name@),
        ],
        NodeList::Grid => seq![lowercased(w.hostname@), lowercased(w.ip_address@)],
        NodeList::Admin => seq![lowercased(w.hostname@), lowercased(w.id@)],
    }
}

/// A worker matches a search, which is in lower case.
pub open spec fn node_found(w: WorkerInfo, query: Seq<char>, list: NodeList) -> bool {
    text_found(searched_texts(w, list), query)
}

/// All cores of a worker are in use.
pub open spec fn fully_busy(w: WorkerInfo) -> bool {
    w.online && busy_cores(w) == w.total_cores && w.total_cores > 0
}

/// A worker is in the state that a list is narrowed to; the list for administrators does not
/// know of busy workers, and a state that is not known narrows nothing.
pub open spec fn node_wanted(w: WorkerInfo, filter: Seq<char>, list: NodeList) -> bool {
    if filter == "All"@ {
        true
    } else if filter == "Online"@ {
        w.online
    } else if filter == "Offline"@ {
        !w.online
    } else if filter == "Busy"@ && list != NodeList::Admin {
        fully_busy(w)
    } else {
        true
    }
}

pub open spec fn node_shown(
    w: WorkerInfo,
    query: Seq<char>,
    filter: Seq<char>,
    list: NodeList,
) -> bool {
    node_found(w, query, list) && node_wanted(w, filter, list)
}

/// The workers that a list shows for a search, in whatever case it was typed, and a state.
pub open spec fn shown_nodes(
    ws: Seq<WorkerInfo>,
    search: Seq<char>,
    filter: Seq<char>,
    list: NodeList,
) -> Seq<WorkerInfo> {
    ws.filter(|w: WorkerInfo| node_shown(w, lowercased(search), filter, list))
}

fn is_found(w: &WorkerInfo, query: &str, list: NodeList) -> (r: bool)
    ensures
        r == node_found(*w, query@, list),
{
    let mut all: Vec<String> = Vec::new();
    all.push(lowercase(&w.hostname));
    match list {
        NodeList::Cluster => {
            all.push(lowercase(&w.ip_address));
            all.push(lowercase(&w.id));
            all.push(lowercase(&w.os_name));
        },
        NodeList::Grid => {
            all.push(lowercase(&w.ip_address));
        },
        NodeList::Admin => {
            all.push(lowercase(&w.id));
        },
    }
    assert(texts(all@) =~= searched_texts(*w, list));
    found_in(&all, query)
}

/// Whether a worker is in the state that a list is narrowed to.
pub fn is_wanted(w: &WorkerInfo, filter: &str, list: NodeList) -> (r: bool)
    ensures
        r == node_wanted(*w, filter@, list),
{
    if str_eq(filter, "All") {
        true
    } else if str_eq(filter, "Online") {
        w.online
    } else if str_eq(filter, "Offline") {
        !w.online
    } else if str_eq(filter, "Busy") && list != NodeList::Admin {
        w.online && busy_cores_of(w) == w.total_cores && w.total_cores > 0
    } else {
        true
    }
}

fn is_shown(w: &WorkerInfo, query: &str, filter: &str, list: NodeList) -> (r: bool)
    ensures
        r == node_shown(*w, query@, filter@, list),
{
    is_found(w, query, list) && is_wanted(w, filter, list)
}

pub fn filtered_nodes(
    workers: Vec<WorkerInfo>,
    search: &str,
    filter: &str,
    list: NodeList,
) -> (r: Vec<WorkerInfo>)
    ensures
        r@ == shown_nodes(workers@, search@, filter@, list),
{
    let query: String = lowercase(search);
    let shown = |w: &WorkerInfo| -> (q: bool)
        ensures
            (q == node_shown(*w, query@, filter@, list)),
        { is_shown(w, &query, filter, list) };
    keep(
        workers,
        shown,
        Ghost(|w: WorkerInfo| node_shown(w, lowercased(search@), filter@, list)),
    )
}

/// The workers on one page of a list.
pub fn paginated_nodes(
    workers: Vec<WorkerInfo>,
    search: &str,
    filter: &str,
    list: NodeList,
    page: usize,
) -> (r: Vec<WorkerInfo>)
    ensures
        r@ == page_of(shown_nodes(workers@, search@, filter@, list), page as nat, list.size()),
{
    take_page(filtered_nodes(workers, search, filter, list), page, list.page_size())
}

/// An empty search and no narrowing show every worker.
pub proof fn law_nothing_asked_shows_all(ws: Seq<WorkerInfo>, list: NodeList)
    ensures
        ws.filter(|w: WorkerInfo| node_shown(w, Seq::empty(), "All"@, list)) == ws,
    decreases ws.len(),
{
    reveal(Seq::filter);
    if ws.len() > 0 {
        law_nothing_asked_shows_all(ws.drop_last(), list);
        assert(ws =~= ws.drop_last().push(ws.last()));
    }
}

/// Each worker is shown as online or as offline, and never as both.
pub proof fn law_online_and_offline_part_the_list(w: WorkerInfo, query: Seq<char>, list: NodeList)
    requires
        node_found(w, query, list),
    ensures
        node_shown(w, query, "Online"@, list) <==> !node_shown(w, query, "Offline"@, list),
{
    reveal_strlit("All");
    reveal_strlit("Online");
    reveal_strlit("Offline");
    assert("All"@.len() != "Online"@.len());
    assert("Online"@.len() != "Offline"@.len());
    assert("All"@.len() != "Offline"@.len());
}

/// A text, or another where it is empty.
pub fn text_or(text: &str, other: &str) -> (r: String)
    ensures
        r@ == if text@.len() == 0 {
            other@
        } else {
            text@
        },
{
    if text.is_empty() {
        other.to_string()
    } else {
        text.to_string()
    }
}

/// What is used of an amount of which some is free.
pub fn used_of(total: u64, free: u64) -> (r: u64)
    ensures
        r == if total > free {
            total - free
        } else {
            0
        },
{
    if total > free {
        total - free
    } else {
        0
    }
}

/// A worker is found by its host name in every list, by its address in those of the cluster and of
/// the grid, by its name in those of the cluster and of administrators, and by its system in that of
/// the cluster.
pub proof fn law_workers_are_found_by_what_they_are(w: WorkerInfo, query: Seq<char>, list: NodeList)
    ensures
        has_text(lowercased(w.hostname@), query) ==> node_found(w, query, list),
        has_text(lowercased(w.ip_address@), query) && list != NodeList::Admin ==> node_found(
            w,
            query,
            list,
        ),
        has_text(lowercased(w.id@), query) && list != NodeList::Grid ==> node_found(w, query, list),
        has_text(lowercased(w.os_name@), query) ==> node_found(w, query, NodeList::Cluster),
        query.len() > 0 && node_found(w, query, list) ==> has_text(lowercased(w.hostname@), query)
            || (has_text(lowercased(w.ip_address@), query) && list != NodeList::Admin) || (has_text(
            lowercased(w.id@),
            query,
        ) && list != NodeList::Grid) || (has_text(lowercased(w.os_name@), query) && list
            == NodeList::Cluster),
        query.len() == 0 ==> node_found(w, query, list),
{
    let t = searched_texts(w, list);
    assert(t[0] == lowercased(w.hostname@));
    match list {
        NodeList::Cluster => {
            assert(t[1] == lowercased(w.ip_address@));
            assert(t[2] == lowercased(w.id@));
            assert(t[3] == lowercased(w.os_name@));
        },
        NodeList::Grid => {
            assert(t[1] == lowercased(w.ip_address@));
        },
        NodeList::Admin => {
            assert(t[1] == lowercased(w.id@));
        },
    }
}

/// A worker is shown as online exactly if it is, and as busy exactly if it is online and all the
/// cores that it has are in use; only the list of administrators does not tell busy ones apart.
pub proof fn law_workers_are_shown_in_their_state(w: WorkerInfo, list: NodeList)
    ensures
        node_wanted(w, "All"@, list),
        node_wanted(w, "Online"@, list) <==> w.online,
        node_wanted(w, "Offline"@, list) <==> !w.online,
        list != NodeList::Admin ==> (node_wanted(w, "Busy"@, list) <==> w.online && w.total_cores
            > 0 && busy_cores(w) == w.total_cores),
        node_wanted(w, "Busy"@, NodeList::Admin),
{
    reveal_strlit("All");
    reveal_strlit("Online");
    reveal_strlit("Offline");
    reveal_strlit("Busy");
    assert("All"@.len() == 3);
    assert("Online"@.len() == 6);
    assert("Offline"@.len() == 7);
    assert("Busy"@.len() == 4);
}

/// No worker that is to be shown is missing, and none is shown that is not.
pub proof fn law_no_shown_worker_is_missing(
    ws: Seq<WorkerInfo>,
    search: Seq<char>,
    filter: Seq<char>,
    list: NodeList,
    w: WorkerInfo,
)
    ensures
        shown_nodes(ws, search, filter, list).contains(w) <==> ws.contains(w) && node_found(
            w,
            lowercased(search),
            list,
        ) && node_wanted(w, filter, list),
{
    let p = |w: WorkerInfo| node_shown(w, lowercased(search), filter, list);
    crate::web::listing::lemma_kept_exactly(ws, p, w);
}

/// Fifteen workers stand on a page of the cluster, ten beside the grid, and three on one for
/// administrators.
pub proof fn law_pages_have_their_size(list: NodeList)
    ensures
        list == NodeList::Cluster ==> list.size() == 15,
        list == NodeList::Grid ==> list.size() == 10,
        list == NodeList::Admin ==> list.size() == 3,
{
}

} // verus!
