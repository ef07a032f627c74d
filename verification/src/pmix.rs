//! Names, records and answers of the PMIx server that a worker runs for its jobs.

use vstd::prelude::*;
use vstd::utf8::encode_utf8;

use crate::numbers::decimal;
use crate::numbers::decimal_i64;
use crate::numbers::decimal_int;
use crate::numbers::decimal_u32;
use crate::numbers::decimal_u64;
use crate::text::contains;
use crate::text::ends_with;
use crate::text::has_suffix;
use crate::text::has_text;
use crate::text::optional_text;

verus! {

/// The namespace under which a job's processes register.
pub open spec fn namespace_of(job_id: u64) -> Seq<char> {
    "pmix-job-"@ + decimal(job_id as nat)
}

pub fn namespace_name(job_id: u64) -> (r: String)
    ensures
        r@ == namespace_of(job_id),
{
    let mut r: String = "pmix-job-".to_owned();
    r.append(&decimal_u64(job_id));
    r
}

/// Where a job's processes reach the server, once its socket is known.
pub open spec fn uri_of(socket: Option<Seq<char>>, job_id: u64) -> Option<Seq<char>> {
    match socket {
        Some(path) => Some(namespace_of(job_id) + ":unix-socket="@ + path),
        None => None,
    }
}

pub fn get_server_uri(socket_path: &Option<String>, job_id: u64) -> (r: Option<String>)
    ensures
        optional_text(r) == uri_of(optional_text(*socket_path), job_id),
{
    match socket_path {
        Some(path) => {
            let mut uri: String = namespace_name(job_id);
            uri.append(":unix-socket=");
            uri.append(path.as_str());
            Some(uri)
        },
        None => None,
    }
}

/// A process as the server knows it: the namespace, ended by a zero and filled up with zeros,
/// and the rank.
#[allow(non_camel_case_types)]
pub struct pmix_proc_t {
    pub nspace: Vec<u8>,
    pub rank: u32,
}

/// How many bytes a namespace has room for.
pub const NSPACE_LEN: usize = 256;

/// The record of a job's process.
pub fn client_proc(job_id: u64, rank: u32) -> (r: Result<pmix_proc_t, String>)
    ensures
        match r {
            Ok(p) => {
                let name = encode_utf8(namespace_of(job_id));
                &&& name.len() < NSPACE_LEN
                &&& p.nspace@ == name + Seq::new((NSPACE_LEN - name.len()) as nat, |i: int| 0u8)
                &&& p.rank == rank
            },
            Err(e) => encode_utf8(namespace_of(job_id)).len() >= NSPACE_LEN && e@
                == "Namespace name is too long for pmix_proc_t"@,
        },
{
    let name: String = namespace_name(job_id);
    let bytes: &[u8] = name.as_str().as_bytes();
    let ghost all = encode_utf8(namespace_of(job_id));
    if bytes.len() >= NSPACE_LEN {
        return Err("Namespace name is too long for pmix_proc_t".to_owned());
    }
    let n: usize = bytes.len();
    let mut nspace: Vec<u8> = Vec::new();
    let mut i: usize = 0;
    while i < n
        invariant
            i <= n,
            n == bytes@.len(),
            bytes@ == all,
            nspace@ == all.take(i as int),
        decreases n - i,
    {
        nspace.push(bytes[i]);
        i = i + 1;
    }
    assert(all.take(n as int) =~= all);
    while i < NSPACE_LEN
        invariant
            n <= i <= NSPACE_LEN,
            n == all.len(),
            nspace@ == all + Seq::new((i - n) as nat, |k: int| 0u8),
        decreases NSPACE_LEN - i,
    {
        nspace.push(0);
        i = i + 1;
        assert(nspace@ =~= all + Seq::new((i - n) as nat, |k: int| 0u8));
    }
    Ok(pmix_proc_t { nspace, rank })
}

proof fn lemma_decimal_short(n: nat, width: nat)
    requires
        width >= 1,
        n < vstd::arithmetic::power::pow(10, width),
    ensures
        decimal(n).len() <= width,
        forall|i: int| 0 <= i < decimal(n).len() ==> '\0' <= #[trigger] decimal(n)[i] <= '\u{7f}',
    decreases n,
{
    if n >= 10 {
        if width == 1 {
            vstd::arithmetic::power::lemma_pow1(10);
        } else {
            let rest = (width - 1) as nat;
            assert(n / 10 < vstd::arithmetic::power::pow(10, rest)) by {
                reveal(vstd::arithmetic::power::pow);
            }
            lemma_decimal_short(n / 10, rest);
        }
    }
}

/// The namespace of every job fits into a process record.
pub proof fn law_namespace_fits(job_id: u64)
    ensures
        encode_utf8(namespace_of(job_id)).len() < NSPACE_LEN,
{
    let name = namespace_of(job_id);
    assert(u64::MAX < vstd::arithmetic::power::pow(10, 20)) by {
        reveal(vstd::arithmetic::power::pow);
        reveal_with_fuel(vstd::arithmetic::power::pow, 21);
    }
    lemma_decimal_short(job_id as nat, 20);
    reveal_strlit("pmix-job-");
    assert(vstd::utf8::is_ascii_chars(name)) by {
        assert forall|i: int| 0 <= i < name.len() implies '\0' <= #[trigger] name[i]
            <= '\u{7f}' by {
            if i >= 9 {
                assert(name[i] == decimal(job_id as nat)[i - 9]);
            }
        }
    }
    vstd::utf8::is_ascii_chars_encode_utf8(name);
}

/// A registration went well.
pub open spec fn registered(status: i32, callback: Option<i32>) -> bool {
    status == 0 && callback == Some(0i32)
}

/// What the outcome of a registration says: `status` is what the call returned, `callback`
/// what the server reported afterwards, if it did.
pub fn nspace_registration(status: i32, callback: Option<i32>) -> (r: Result<(), String>)
    ensures
        r is Ok <==> registered(status, callback),
        r is Ok <==> status == 0 && callback == Some(0i32),
        r matches Err(e) ==> e@ == (if status != 0 {
            "PMIx_server_register_nspace failed with status code "@ + decimal_int(status as int)
        } else {
            match callback {
                Some(s) => "PMIx namespace registration callback returned failure status "@
                    + decimal_int(s as int),
                None => "PMIx namespace registration callback channel disconnected"@,
            }
        }),
{
    if status != 0 {
        let mut e: String = "PMIx_server_register_nspace failed with status code ".to_owned();
        e.append(&decimal_i64(status as i64));
        return Err(e);
    }
    match callback {
        Some(s) => if s != 0 {
            let mut e: String =
                "PMIx namespace registration callback returned failure status ".to_owned();
            e.append(&decimal_i64(s as i64));
            Err(e)
        } else {
            Ok(())
        },
        None => Err("PMIx namespace registration callback channel disconnected".to_owned()),
    }
}

/// What the outcome of registering the process of a rank says.
pub fn client_registration(rank: u32, status: i32, callback: Option<i32>) -> (r: Result<
    (),
    String,
>)
    ensures
        r is Ok <==> registered(status, callback),
        r is Ok <==> status == 0 && callback == Some(0i32),
        r matches Err(e) ==> e@ == (if status != 0 {
            "PMIx_server_register_client failed for rank "@ + decimal(rank as nat)
                + " with status code "@ + decimal_int(status as int)
        } else {
            match callback {
                Some(s) => "PMIx client registration callback returned failure status "@
                    + decimal_int(s as int) + " for rank "@ + decimal(rank as nat),
                None => "PMIx client registration callback channel disconnected"@,
            }
        }),
{
    if status != 0 {
        let mut e: String = "PMIx_server_register_client failed for rank ".to_owned();
        e.append(&decimal_u32(rank));
        e.append(" with status code ");
        e.append(&decimal_i64(status as i64));
        return Err(e);
    }
    match callback {
        Some(s) => if s != 0 {
            let mut e: String =
                "PMIx client registration callback returned failure status ".to_owned();
            e.append(&decimal_i64(s as i64));
            e.append(" for rank ");
            e.append(&decimal_u32(rank));
            Err(e)
        } else {
            Ok(())
        },
        None => Err("PMIx client registration callback channel disconnected".to_owned()),
    }
}

/// A file of the server's directory that is taken for its socket by its name alone.
pub fn names_socket(filename: &str) -> (r: bool)
    ensures
        r == (has_text(filename@, "pmix"@) || has_suffix(filename@, ".socket"@)),
{
    contains(filename, "pmix") || ends_with(filename, ".socket")
}

/// A file below the server's directory.
pub struct ServerFile {
    pub path: String,
    pub name: String,
    pub is_socket: bool,
}

/// A file is taken for the server's socket by its kind or its name.
pub open spec fn taken_for_socket(f: ServerFile) -> bool {
    f.is_socket || has_text(f.name@, "pmix"@) || has_suffix(f.name@, ".socket"@)
}

/// The first file that is taken for the server's socket, from `from` on.
pub open spec fn socket_from(files: Seq<ServerFile>, from: int) -> Option<Seq<char>>
    decreases files.len() - from,
{
    if from < 0 || from >= files.len() {
        None
    } else if taken_for_socket(files[from]) {
        Some(files[from].path@)
    } else {
        socket_from(files, from + 1)
    }
}

/// The server's socket among the files below its directory, in the order in which a walk meets
/// them, each directory where it stands.
pub fn find_socket_in_dir(files: &Vec<ServerFile>) -> (r: Option<String>)
    ensures
        optional_text(r) == socket_from(files@, 0),
{
    let mut i: usize = 0;
    while i < files.len()
        invariant
            i <= files@.len(),
            socket_from(files@, 0) == socket_from(files@, i as int),
        decreases files@.len() - i,
    {
        if files[i].is_socket || names_socket(&files[i].name) {
            return Some(files[i].path.clone());
        }
        i = i + 1;
    }
    None
}

/// What follows a look for the server's socket.
pub enum SocketSearch {
    Found { path: String },
    /// Wait this long and look again.
    Wait { looks: u32, wait_ms: u64 },
    /// Wait this long and fail.
    Failed { wait_ms: u64, reason: String },
}

/// How often the socket is looked for.
pub const SOCKET_LOOKS: u32 = 50;

/// The look that follows one that found no socket, and after how many milliseconds; none, where it
/// was the last.
pub open spec fn look_again(looks: u32) -> Option<(nat, nat)> {
    if looks + 1 < SOCKET_LOOKS {
        Some(((looks + 1) as nat, 100nat))
    } else {
        None
    }
}

/// What follows a look for the socket, after `looks` earlier ones that found none. Every look
/// that finds none is followed by a wait, the last one too.
pub fn after_look(found: Option<String>, looks: u32) -> (r: SocketSearch)
    requires
        looks < SOCKET_LOOKS,
    ensures
        found is Some <==> r is Found,
        found is None ==> look_again(looks) == (match r {
            SocketSearch::Wait { looks: n, wait_ms } => Some((n as nat, wait_ms as nat)),
            _ => None,
        }),
        match found {
            Some(p) => r matches SocketSearch::Found { path } && path@ == p@,
            None => if looks + 1 < SOCKET_LOOKS {
                r matches SocketSearch::Wait { looks: n, wait_ms } && n == looks + 1 && wait_ms
                    == 100
            } else {
                r matches SocketSearch::Failed { wait_ms, reason } && wait_ms == 100 && reason@
                    == "PMIx server socket file not found after initialization"@
            },
        },
{
    match found {
        Some(path) => SocketSearch::Found { path },
        None => if looks + 1 < SOCKET_LOOKS {
            SocketSearch::Wait { looks: looks + 1, wait_ms: 100 }
        } else {
            SocketSearch::Failed {
                wait_ms: 100,
                reason: "PMIx server socket file not found after initialization".to_owned(),
            }
        },
    }
}

/// What the server's answer to its start says.
pub fn server_started(status: i32) -> (r: Result<(), String>)
    ensures
        r is Ok <==> status == 0,
        r matches Err(e) ==> e@ == "PMIx_server_init failed with status code "@ + decimal_int(
            status as int,
        ),
{
    if status != 0 {
        let mut e: String = "PMIx_server_init failed with status code ".to_owned();
        e.append(&decimal_i64(status as i64));
        return Err(e);
    }
    Ok(())
}

/// The directory of the server's socket.
pub const SOCKET_DIR: &'static str = "/tmp/pmix.veloce";

/// The server of a worker: the path of its socket, once one has been found.
pub struct GlobalServer {
    pub socket: Option<String>,
}

/// What came of a start of the server.
pub enum StartOutcome {
    /// Its directory was missing and could not be made.
    NoDirectory { error: String },
    /// It answered with a status, and its socket was looked for if that was zero.
    Answered { status: i32, socket: Option<String> },
}

/// A start that failed: why, and what is to be undone.
pub struct StartFailure {
    pub reason: String,
    pub stop_server: bool,
    pub remove_directory: bool,
}

/// The socket that a start found.
pub open spec fn found_socket(outcome: StartOutcome) -> Option<Seq<char>> {
    match outcome {
        StartOutcome::Answered { status, socket } => if status == 0 {
            optional_text(socket)
        } else {
            None
        },
        StartOutcome::NoDirectory { .. } => None,
    }
}

/// What a server goes through.
pub enum ServerEvent {
    Start(StartOutcome),
    End,
}

/// The socket that is known after an event. One that is known stays.
pub open spec fn socket_after(known: Option<Seq<char>>, event: ServerEvent) -> Option<Seq<char>> {
    match (known, event) {
        (None, ServerEvent::Start(outcome)) => found_socket(outcome),
        _ => known,
    }
}

impl GlobalServer {
    pub fn new() -> (r: Self)
        ensures
            r.socket is None,
    {
        GlobalServer { socket: None }
    }
}

/// Takes up what came of a start of the server.
pub fn init_global_server(server: &mut GlobalServer, outcome: StartOutcome) -> (r: Result<
    (),
    StartFailure,
>)
    ensures
        optional_text(final(server).socket) == socket_after(
            optional_text(old(server).socket),
            ServerEvent::Start(outcome),
        ),
        r is Ok <==> found_socket(outcome) is Some,
        r matches Err(e) ==> match outcome {
            StartOutcome::NoDirectory { error } => {
                &&& e.reason@ == "Failed to create PMIx socket directory "@ + SOCKET_DIR@ + ": "@
                    + error@
                &&& !e.stop_server
                &&& !e.remove_directory
            },
            StartOutcome::Answered { status, .. } => {
                &&& e.reason@ == if status != 0 {
                    "PMIx_server_init failed with status code "@ + decimal_int(status as int)
                } else {
                    "PMIx server socket file not found after initialization"@
                }
                &&& e.stop_server == (status == 0)
                &&& e.remove_directory
            },
        },
{
    match outcome {
        StartOutcome::NoDirectory { error } => {
            let mut reason: String = "Failed to create PMIx socket directory ".to_owned();
            reason.append(SOCKET_DIR);
            reason.append(": ");
            reason.append(&error);
            Err(StartFailure { reason, stop_server: false, remove_directory: false })
        },
        StartOutcome::Answered { status, socket } => {
            match server_started(status) {
                Err(reason) => {
                    return Err(StartFailure { reason, stop_server: false, remove_directory: true });
                },
                Ok(()) => {},
            }
            match socket {
                Some(path) => {
                    if server.socket.is_none() {
                        server.socket = Some(path);
                    }
                    Ok(())
                },
                None => Err(
                    StartFailure {
                        reason: "PMIx server socket file not found after initialization".to_owned(),
                        stop_server: true,
                        remove_directory: true,
                    },
                ),
            }
        },
    }
}

/// Takes up what came of the end of the server: `left` says why its directory is still there, if
/// it could not be removed.
pub fn finalize_global_server(server: &mut GlobalServer, left: Option<String>) -> (r: Result<
    (),
    String,
>)
    ensures
        *final(server) == *old(server),
        match left {
            None => r is Ok,
            Some(error) => r matches Err(e) && e@ == "Failed to clean up PMIx socket directory "@
                + SOCKET_DIR@ + ": "@ + error@,
        },
{
    match left {
        None => Ok(()),
        Some(error) => {
            let mut e: String = "Failed to clean up PMIx socket directory ".to_owned();
            e.append(SOCKET_DIR);
            e.append(": ");
            e.append(&error);
            Err(e)
        },
    }
}

/// The socket that is known after a number of events.
pub open spec fn socket_over(events: Seq<ServerEvent>) -> Option<Seq<char>>
    decreases events.len(),
{
    if events.len() == 0 {
        None
    } else {
        socket_after(socket_over(events.drop_last()), events.last())
    }
}

/// The socket that an event brings to light.
pub open spec fn socket_of(event: ServerEvent) -> Option<Seq<char>> {
    match event {
        ServerEvent::Start(outcome) => found_socket(outcome),
        ServerEvent::End => None,
    }
}

/// No address is given before a start has found the socket.
pub proof fn law_no_address_before_a_start(events: Seq<ServerEvent>, job_id: u64)
    requires
        forall|i: int| 0 <= i < events.len() ==> socket_of(#[trigger] events[i]) is None,
    ensures
        uri_of(socket_over(events), job_id) is None,
    decreases events.len(),
{
    if events.len() > 0 {
        let before = events.drop_last();
        assert forall|i: int| 0 <= i < before.len() implies socket_of(
            #[trigger] before[i],
        ) is None by {
            assert(before[i] == events[i]);
        }
        law_no_address_before_a_start(before, job_id);
        assert(socket_of(events[events.len() - 1]) is None);
    }
}

/// The address given to jobs is that of the socket which the first start to find one found,
/// whatever starts and ends come after it.
pub proof fn law_address_stays(events: Seq<ServerEvent>, first: int, job_id: u64)
    requires
        0 <= first < events.len(),
        socket_of(events[first]) is Some,
        forall|i: int| 0 <= i < first ==> socket_of(#[trigger] events[i]) is None,
    ensures
        uri_of(socket_over(events), job_id) == uri_of(socket_of(events[first]), job_id),
        uri_of(socket_over(events), job_id) is Some,
    decreases events.len(),
{
    let before = events.drop_last();
    assert forall|i: int| 0 <= i < first implies socket_of(#[trigger] before[i]) is None by {
        assert(before[i] == events[i]);
    }
    if first == events.len() - 1 {
        law_no_address_before_a_start(before, job_id);
    } else {
        law_address_stays(before, first, job_id);
    }
}

/// The socket of the server is the first file that is one or is named like one: with `pmix` in its
/// name, or with `.socket` at its end.
pub proof fn law_sockets_are_found_by_kind_or_name(
    files: Seq<ServerFile>,
    i: int,
    a: Seq<char>,
    b: Seq<char>,
)
    requires
        0 <= i < files.len(),
    ensures
        files[i].is_socket ==> taken_for_socket(files[i]),
        files[i].name@ == a + "pmix"@ + b ==> taken_for_socket(files[i]),
        files[i].name@ == a + ".socket"@ ==> taken_for_socket(files[i]),
        !files[i].is_socket && !has_text(files[i].name@, "pmix"@) && !has_suffix(
            files[i].name@,
            ".socket"@,
        ) ==> !taken_for_socket(files[i]),
        taken_for_socket(files[i]) && (forall|k: int|
            0 <= k < i ==> !taken_for_socket(#[trigger] files[k])) ==> socket_from(files, 0) == Some(
            files[i].path@,
        ),
        (forall|k: int| 0 <= k < files.len() ==> !taken_for_socket(#[trigger] files[k]))
            ==> socket_from(files, 0) is None,
{
    crate::text::lemma_holds(a, "pmix"@, b);
    crate::text::lemma_ends_with(a, ".socket"@);
    if taken_for_socket(files[i]) && (forall|k: int|
        0 <= k < i ==> !taken_for_socket(#[trigger] files[k])) {
        lemma_socket_at(files, 0, i);
    }
    if forall|k: int| 0 <= k < files.len() ==> !taken_for_socket(#[trigger] files[k]) {
        lemma_no_socket(files, 0);
    }
}

proof fn lemma_socket_at(files: Seq<ServerFile>, from: int, i: int)
    requires
        0 <= from <= i < files.len(),
        taken_for_socket(files[i]),
        forall|k: int| 0 <= k < i ==> !taken_for_socket(#[trigger] files[k]),
    ensures
        socket_from(files, from) == Some(files[i].path@),
    decreases i - from,
{
    if from < i {
        assert(!taken_for_socket(files[from]));
        lemma_socket_at(files, from + 1, i);
    }
}

proof fn lemma_no_socket(files: Seq<ServerFile>, from: int)
    requires
        0 <= from,
        forall|k: int| 0 <= k < files.len() ==> !taken_for_socket(#[trigger] files[k]),
    ensures
        socket_from(files, from) is None,
    decreases files.len() - from,
{
    if from < files.len() {
        assert(!taken_for_socket(files[from]));
        lemma_no_socket(files, from + 1);
    }
}

/// Processes of different jobs register under different names, and reach the server through the same
/// socket.
pub proof fn law_jobs_register_apart(a: u64, b: u64, path: Seq<char>)
    ensures
        a != b ==> namespace_of(a) != namespace_of(b),
        uri_of(None, a) is None,
        uri_of(Some(path), a) is Some,
        crate::text::has_suffix(uri_of(Some(path), a)->0, ":unix-socket="@ + path),
        crate::text::has_prefix(uri_of(Some(path), a)->0, namespace_of(a)),
{
    let p = "pmix-job-"@;
    if a != b && namespace_of(a) == namespace_of(b) {
        assert(namespace_of(a).skip(p.len() as int) =~= decimal(a as nat));
        assert(namespace_of(b).skip(p.len() as int) =~= decimal(b as nat));
        crate::numbers::law_decimal_is_injective(a as nat, b as nat);
    }
    let uri = namespace_of(a) + ":unix-socket="@ + path;
    assert(uri =~= namespace_of(a) + (":unix-socket="@ + path));
    crate::text::lemma_ends_with(namespace_of(a), ":unix-socket="@ + path);
    assert(uri.subrange(0, namespace_of(a).len() as int) =~= namespace_of(a));
}

/// A registration went well exactly if the call did and the server confirmed it.
pub proof fn law_registrations_need_a_confirmation(status: i32, callback: Option<i32>)
    ensures
        registered(status, callback) ==> status == 0 && callback is Some && callback->0 == 0,
        registered(0, Some(0i32)),
        !registered(status, None),
        status != 0 ==> !registered(status, callback),
{
}

/// The socket is looked for fifty times, a tenth of a second apart, and not again once it is found.
pub proof fn law_sockets_are_looked_for_fifty_times(looks: u32)
    requires
        looks < 50,
    ensures
        looks <= 48 ==> look_again(looks) == Some(((looks + 1) as nat, 100nat)),
        looks == 49 ==> look_again(looks) is None,
{
}

} // verus!
