//! How a worker is set up: its configuration, its name, and the controllers it looks for.

use vstd::prelude::*;

use crate::pieces::split_char;
use crate::pieces::split_on;
use crate::pmi::trimmed_all;
use crate::telemetry::is_switched_on;
use crate::telemetry::switched_on;
use crate::text::optional_text;
use crate::text::lemma_texts_push;
use crate::text::str_eq;
use crate::text::texts;
use crate::text::trim;
use crate::text::trimmed;

verus! {

/// How the environment of jobs is governed, from the values of the variables that say so.
pub struct EnvPolicy {
    pub allowlist_enabled: bool,
    pub defaults: String,
    pub require_impersonation: bool,
}

pub fn worker_env_policy(
    allowlist: &Option<String>,
    defaults: &Option<String>,
    impersonation: &Option<String>,
) -> (r: EnvPolicy)
    ensures
        r.allowlist_enabled == switched_on(*allowlist),
        r.defaults@ == (match *defaults {
            Some(d) => d@,
            None => "PATH,LANG,LC_ALL,TMPDIR"@,
        }),
        r.require_impersonation == switched_on(*impersonation),
{
    EnvPolicy {
        allowlist_enabled: is_switched_on(allowlist),
        defaults: match defaults {
            Some(d) => d.clone(),
            None => "PATH,LANG,LC_ALL,TMPDIR".to_owned(),
        },
        require_impersonation: is_switched_on(impersonation),
    }
}

/// The settings of a worker that are texts and numbers.
pub struct Config {
    pub controller: Option<String>,
    pub prolog: Option<String>,
    pub epilog: Option<String>,
    pub cluster_secret: Option<String>,
    pub controllers: Vec<String>,
    pub run_as_worker_user: bool,
    pub fileserver_url: Option<String>,
    pub fileserver_api_key: Option<String>,
    pub idle_timeout_seconds: Option<u64>,
    pub worker_token: Option<String>,
}

impl Default for Config {
    fn default() -> (r: Self)
        ensures
            r.controller is None,
            r.prolog is None,
            r.epilog is None,
            r.cluster_secret is None,
            r.controllers@.len() == 0,
            !r.run_as_worker_user,
            r.fileserver_url is None,
            r.fileserver_api_key is None,
            r.idle_timeout_seconds == Some(600u64),
            r.worker_token is None,
    {
        Config {
            controller: None,
            prolog: None,
            epilog: None,
            cluster_secret: None,
            controllers: Vec::new(),
            run_as_worker_user: false,
            fileserver_url: None,
            fileserver_api_key: None,
            idle_timeout_seconds: Some(600),
            worker_token: None,
        }
    }
}

/// What the command line or the environment says beside the configuration.
pub struct Overrides {
    pub controller: Option<String>,
    pub controllers: Option<String>,
    pub cluster_secret: Option<String>,
    pub fileserver_url: Option<String>,
    pub fileserver_api_key: Option<String>,
    pub idle_timeout_seconds: Option<u64>,
    pub worker_token: Option<String>,
}

/// What is said last, or else what was said before.
pub open spec fn over(given: Option<String>, base: Option<String>) -> Option<Seq<char>> {
    match given {
        Some(g) => Some(g@),
        None => match base {
            Some(b) => Some(b@),
            None => None,
        },
    }
}

fn take_over(given: &Option<String>, base: Option<String>) -> (r: Option<String>)
    ensures
        optional_text(r) == over(*given, base),
{
    match given {
        Some(g) => Some(g.clone()),
        None => base,
    }
}

/// The names in a list separated by commas, without white space around them.
pub fn split_names(list: &str) -> (r: Vec<String>)
    ensures
        texts(r@) == trimmed_all(split_on(list@, ',')),
{
    let parts: Vec<String> = split_char(list, ',');
    let ghost all = trimmed_all(texts(parts@));
    let mut r: Vec<String> = Vec::new();
    let mut i: usize = 0;
    assert(texts(r@) =~= all.take(0));
    while i < parts.len()
        invariant
            i <= parts@.len(),
            all == trimmed_all(texts(parts@)),
            texts(r@) == all.take(i as int),
        decreases parts@.len() - i,
    {
        let name: String = trim(&parts[i]);
        assert(all[i as int] == name@);
        proof {
            lemma_texts_push(r@, name);
        }
        r.push(name);
        i = i + 1;
        assert(texts(r@) =~= all.take(i as int));
    }
    assert(all.take(all.len() as int) =~= all);
    r
}

/// What a configuration says.
pub ghost struct ConfigView {
    pub controller: Option<Seq<char>>,
    pub prolog: Option<Seq<char>>,
    pub epilog: Option<Seq<char>>,
    pub cluster_secret: Option<Seq<char>>,
    pub controllers: Seq<Seq<char>>,
    pub run_as_worker_user: bool,
    pub fileserver_url: Option<Seq<char>>,
    pub fileserver_api_key: Option<Seq<char>>,
    pub idle_timeout_seconds: Option<u64>,
    pub worker_token: Option<Seq<char>>,
}

pub open spec fn config_view(c: Config) -> ConfigView {
    ConfigView {
        controller: optional_text(c.controller),
        prolog: optional_text(c.prolog),
        epilog: optional_text(c.epilog),
        cluster_secret: optional_text(c.cluster_secret),
        controllers: texts(c.controllers@),
        run_as_worker_user: c.run_as_worker_user,
        fileserver_url: optional_text(c.fileserver_url),
        fileserver_api_key: optional_text(c.fileserver_api_key),
        idle_timeout_seconds: c.idle_timeout_seconds,
        worker_token: optional_text(c.worker_token),
    }
}

/// The configuration with what the command line says put over it.
pub open spec fn overridden(c: Config, o: Overrides) -> ConfigView {
    ConfigView {
        controller: over(o.controller, c.controller),
        prolog: optional_text(c.prolog),
        epilog: optional_text(c.epilog),
        cluster_secret: over(o.cluster_secret, c.cluster_secret),
        controllers: match o.controllers {
            Some(list) => trimmed_all(split_on(list@, ',')),
            None => texts(c.controllers@),
        },
        run_as_worker_user: c.run_as_worker_user,
        fileserver_url: over(o.fileserver_url, c.fileserver_url),
        fileserver_api_key: over(o.fileserver_api_key, c.fileserver_api_key),
        idle_timeout_seconds: match o.idle_timeout_seconds {
            Some(t) => Some(t),
            None => c.idle_timeout_seconds,
        },
        worker_token: over(o.worker_token, c.worker_token),
    }
}

/// The configuration with what the command line says put over it.
pub fn apply_overrides(config: Config, o: &Overrides) -> (r: Config)
    ensures
        config_view(r) == overridden(config, *o),
        optional_text(r.controller) == over(o.controller, config.controller),
        optional_text(r.cluster_secret) == over(o.cluster_secret, config.cluster_secret),
        optional_text(r.fileserver_url) == over(o.fileserver_url, config.fileserver_url),
        optional_text(r.fileserver_api_key) == over(
            o.fileserver_api_key,
            config.fileserver_api_key,
        ),
        optional_text(r.worker_token) == over(o.worker_token, config.worker_token),
        r.idle_timeout_seconds == (match o.idle_timeout_seconds {
            Some(t) => Some(t),
            None => config.idle_timeout_seconds,
        }),
        texts(r.controllers@) == (match o.controllers {
            Some(c) => trimmed_all(split_on(c@, ',')),
            None => texts(config.controllers@),
        }),
        r.prolog == config.prolog,
        r.epilog == config.epilog,
        r.run_as_worker_user == config.run_as_worker_user,
{
    Config {
        controller: take_over(&o.controller, config.controller),
        prolog: config.prolog,
        epilog: config.epilog,
        cluster_secret: take_over(&o.cluster_secret, config.cluster_secret),
        controllers: match &o.controllers {
            Some(c) => split_names(c),
            None => config.controllers,
        },
        run_as_worker_user: config.run_as_worker_user,
        fileserver_url: take_over(&o.fileserver_url, config.fileserver_url),
        fileserver_api_key: take_over(&o.fileserver_api_key, config.fileserver_api_key),
        idle_timeout_seconds: match o.idle_timeout_seconds {
            Some(t) => Some(t),
            None => config.idle_timeout_seconds,
        },
        worker_token: take_over(&o.worker_token, config.worker_token),
    }
}

/// The controllers to look for: those of the list, with the one that is named apart put first
/// unless it is in the list; the usual address, where none is named at all.
pub open spec fn controllers_of(
    list: Seq<Seq<char>>,
    named: Option<Seq<char>>,
) -> Seq<Seq<char>> {
    let all = match named {
        Some(c) => if list.contains(c) {
            list
        } else {
            seq![c] + list
        },
        None => list,
    };
    if all.len() == 0 {
        seq!["127.0.0.1:9000"@]
    } else {
        all
    }
}

fn has_text_in(list: &Vec<String>, t: &str) -> (r: bool)
    ensures
        r == texts(list@).contains(t@),
{
    let mut i: usize = 0;
    while i < list.len()
        invariant
            i <= list@.len(),
            forall|k: int| 0 <= k < i ==> (#[trigger] list@[k])@ != t@,
        decreases list@.len() - i,
    {
        if str_eq(&list[i], t) {
            assert(texts(list@)[i as int] == t@);
            return true;
        }
        i = i + 1;
    }
    assert(!texts(list@).contains(t@)) by {
        if texts(list@).contains(t@) {
            let k = choose|k: int| 0 <= k < texts(list@).len() && texts(list@)[k] == t@;
            assert(list@[k]@ == t@);
        }
    }
    false
}

pub fn controller_list(controllers: &Vec<String>, controller: &Option<String>) -> (r: Vec<String>)
    ensures
        texts(r@) == controllers_of(texts(controllers@), optional_text(*controller)),
        r@.len() > 0,
{
    let mut r: Vec<String> = Vec::new();
    if let Some(c) = controller {
        if !has_text_in(controllers, c) {
            r.push(c.clone());
        }
    }
    let ghost head = texts(r@);
    let ghost all = texts(controllers@);
    let mut i: usize = 0;
    assert(head + all.take(0) =~= head);
    while i < controllers.len()
        invariant
            i <= controllers@.len(),
            all == texts(controllers@),
            texts(r@) == head + all.take(i as int),
        decreases controllers@.len() - i,
    {
        let c: String = controllers[i].clone();
        proof {
            lemma_texts_push(r@, c);
        }
        r.push(c);
        i = i + 1;
        assert(texts(r@) =~= head + all.take(i as int));
    }
    assert(all.take(all.len() as int) =~= all);
    assert(texts(r@).len() == r@.len());
    if r.len() == 0 {
        r.push("127.0.0.1:9000".to_owned());
        assert(texts(r@) =~= seq!["127.0.0.1:9000"@]);
    } else {
        assert(texts(r@) =~= controllers_of(all, optional_text(*controller)));
    }
    r
}

/// The number that a worker's name starts its sequence of random numbers with.
pub open spec fn seed_of(bytes: Seq<u8>, n: int) -> u64
    decreases n,
{
    if n <= 0 {
        0
    } else {
        seed_of(bytes, n - 1).wrapping_mul(31).wrapping_add(bytes[n - 1] as u64)
    }
}

/// The state after the next random number.
pub open spec fn next_state(rng: u64) -> u64 {
    rng.wrapping_mul(6364136223846793005).wrapping_add(1442695040888963407)
}

/// The random number that a state stands for.
pub open spec fn number_of(rng: u64) -> u32 {
    (rng >> 32) as u32
}

fn next_u32(rng: u64) -> (r: (u64, u32))
    ensures
        r.0 == next_state(rng),
        r.1 == number_of(r.0),
{
    let s: u64 = rng.wrapping_mul(6364136223846793005).wrapping_add(1442695040888963407);
    (s, #[verifier::truncate] ((s >> 32) as u32))
}

/// The list with two entries exchanged.
pub open spec fn swapped(s: Seq<Seq<char>>, i: int, j: int) -> Seq<Seq<char>> {
    s.update(i, s[j]).update(j, s[i])
}

/// The list after the entries from `i` down to the second have each been exchanged with one at
/// or before them that the random numbers pick.
pub open spec fn shuffled_from(s: Seq<Seq<char>>, rng: u64, i: int) -> Seq<Seq<char>>
    decreases i,
{
    if i <= 0 {
        s
    } else {
        let state = next_state(rng);
        let j = number_of(state) as int % (i + 1);
        shuffled_from(swapped(s, i, j), state, i - 1)
    }
}

/// The order in which a worker tries the controllers: one that its name determines.
pub open spec fn shuffled(s: Seq<Seq<char>>, worker_id: Seq<char>) -> Seq<Seq<char>> {
    let bytes = vstd::utf8::encode_utf8(worker_id);
    shuffled_from(s, seed_of(bytes, bytes.len() as int), s.len() - 1)
}

fn exchange(list: Vec<String>, i: usize, j: usize) -> (r: Vec<String>)
    requires
        i < list@.len(),
        j < list@.len(),
    ensures
        texts(r@) == swapped(texts(list@), i as int, j as int),
        r@.len() == list@.len(),
{
    let ghost s = texts(list@);
    let a: String = list[i].clone();
    let b: String = list[j].clone();
    let mut r: Vec<String> = list;
    r.set(i, b);
    r.set(j, a);
    assert(texts(r@) =~= swapped(s, i as int, j as int));
    r
}

/// The controllers in the order in which the worker tries them.
pub fn shuffle_controllers(list: Vec<String>, worker_id: &str) -> (r: Vec<String>)
    ensures
        texts(r@) == shuffled(texts(list@), worker_id@),
        r@.len() == list@.len(),
{
    let bytes: &[u8] = worker_id.as_bytes();
    let ghost goal = shuffled(texts(list@), worker_id@);
    let mut rng: u64 = 0;
    let mut k: usize = 0;
    while k < bytes.len()
        invariant
            k <= bytes@.len(),
            rng == seed_of(bytes@, k as int),
        decreases bytes@.len() - k,
    {
        rng = rng.wrapping_mul(31).wrapping_add(bytes[k] as u64);
        k = k + 1;
    }
    let n: usize = list.len();
    let mut r: Vec<String> = list;
    if n == 0 {
        return r;
    }
    let mut i: usize = n - 1;
    while i > 0
        invariant
            i < n,
            n == r@.len(),
            goal == shuffled_from(texts(r@), rng, i as int),
        decreases i,
    {
        let next: (u64, u32) = next_u32(rng);
        rng = next.0;
        let j: usize = (next.1 as usize) % (i + 1);
        assert(j == number_of(rng) as int % (i + 1));
        r = exchange(r, i, j);
        i = i - 1;
    }
    r
}

proof fn lemma_swap_keeps(s: Seq<Seq<char>>, i: int, j: int)
    requires
        0 <= i < s.len(),
        0 <= j < s.len(),
    ensures
        swapped(s, i, j).to_multiset() == s.to_multiset(),
        swapped(s, i, j).len() == s.len(),
{
    vstd::seq_lib::to_multiset_update(s, i, s[j]);
    vstd::seq_lib::to_multiset_update(s.update(i, s[j]), j, s[i]);
    broadcast use vstd::multiset::group_multiset_axioms;
    let a = s.to_multiset();
    s.to_multiset_ensures();
    s.update(i, s[j]).to_multiset_ensures();
    if i == j {
        assert(swapped(s, i, j) =~= s);
    } else {
        assert(s.contains(s[i]));
        assert(s.contains(s[j]));
        assert(s.update(i, s[j])[j] == s[j]);
        assert(swapped(s, i, j).to_multiset() =~= a);
    }
}

proof fn lemma_shuffle_keeps(s: Seq<Seq<char>>, rng: u64, i: int)
    requires
        i < s.len(),
    ensures
        shuffled_from(s, rng, i).to_multiset() == s.to_multiset(),
        shuffled_from(s, rng, i).len() == s.len(),
    decreases i,
{
    if i > 0 {
        let state = next_state(rng);
        let j = number_of(state) as int % (i + 1);
        lemma_swap_keeps(s, i, j);
        lemma_shuffle_keeps(swapped(s, i, j), state, i - 1);
    }
}

/// Whatever order a worker tries the controllers in, it tries each of them.
pub proof fn law_shuffling_loses_no_controller(s: Seq<Seq<char>>, worker_id: Seq<char>)
    ensures
        shuffled(s, worker_id).to_multiset() == s.to_multiset(),
{
    let bytes = vstd::utf8::encode_utf8(worker_id);
    if s.len() > 0 {
        lemma_shuffle_keeps(s, seed_of(bytes, bytes.len() as int), s.len() - 1);
    }
}

/// The controller to try after the one at `current`.
pub fn next_controller(current: usize, count: usize) -> (r: usize)
    requires
        current < count,
    ensures
        r == (current + 1) % count as int,
{
    (current + 1) % count
}

/// What a worker does after a connection has ended.
#[derive(Clone, Copy, PartialEq, Eq, Structural)]
pub enum AfterConnection {
    Exit,
    /// Wait for so many seconds, and try this controller.
    Try { index: usize, wait_seconds: u64 },
}

/// Which controller is tried next, and after how many seconds; none, where the worker leaves.
pub open spec fn then_try(current: usize, count: usize, draining: bool) -> Option<(int, int)> {
    if draining {
        None
    } else {
        Some(((current + 1) % count as int, 5))
    }
}

pub open spec fn attempt_view(a: AfterConnection) -> Option<(int, int)> {
    match a {
        AfterConnection::Exit => None,
        AfterConnection::Try { index, wait_seconds } => Some((index as int, wait_seconds as int)),
    }
}

/// A worker that is to take no more jobs leaves; any other tries the next controller.
pub fn after_connection(current: usize, count: usize, draining: bool) -> (r: AfterConnection)
    requires
        current < count,
    ensures
        attempt_view(r) == then_try(current, count, draining),
        draining ==> r is Exit,
        !draining ==> r == (AfterConnection::Try {
            index: ((current + 1) % count as int) as usize,
            wait_seconds: 5,
        }),
{
    if draining {
        AfterConnection::Exit
    } else {
        AfterConnection::Try { index: next_controller(current, count), wait_seconds: 5 }
    }
}

/// A lower-case hexadecimal digit.
pub open spec fn is_hex(c: char) -> bool {
    '0' <= c <= '9' || 'a' <= c <= 'f'
}

/// A random identifier in the usual writing: groups of hexadecimal digits, with the version
/// and the variant of random identifiers in their places.
pub open spec fn random_id(s: Seq<char>) -> bool {
    &&& s.len() == 36
    &&& forall|i: int|
        0 <= i < 36 ==> if i == 8 || i == 13 || i == 18 || i == 23 {
            #[trigger] s[i] == '-'
        } else {
            is_hex(s[i])
        }
    &&& s[14] == '4'
    &&& (s[19] == '8' || s[19] == '9' || s[19] == 'a' || s[19] == 'b')
}

/// `uuid::Uuid::new_v4` and its `to_string`: a random identifier. Which one is left to chance;
/// the call needs a system that hands out random bytes.
#[verifier::external_body]
fn fresh_id() -> (r: String)
    ensures
        random_id(r@),
{
    uuid::Uuid::new_v4().to_string()
}

/// The name of a worker, and whether it is a new one that has to be put on record.
pub struct WorkerId {
    pub id: String,
    pub is_new: bool,
}

/// The name of a worker: the one on record, or else the fresh one.
pub fn worker_id_from(stored: &Option<String>, fresh: String) -> (r: WorkerId)
    ensures
        r.is_new == stored is None,
        r.id@ == (match *stored {
            Some(s) => trimmed(s@),
            None => fresh@,
        }),
{
    match stored {
        Some(s) => WorkerId { id: trim(s), is_new: false },
        None => WorkerId { id: fresh, is_new: true },
    }
}

/// The name of a worker; `stored` is the contents of the file that keeps it, if there is one.
pub fn get_worker_id(stored: &Option<String>) -> (r: WorkerId)
    ensures
        r.is_new == stored is None,
        stored matches Some(s) ==> r.id@ == trimmed(s@),
        stored is None ==> random_id(r.id@),
{
    let fresh: String = match stored {
        Some(_) => String::new(),
        None => fresh_id(),
    };
    worker_id_from(stored, fresh)
}

/// Where files are kept and the key to it.
pub struct FileServer {
    pub url: String,
    pub api_key: String,
}

/// Where a worker keeps its files, and the key to it.
pub open spec fn server_of(config: Config) -> Option<(Seq<char>, Seq<char>)> {
    match config.cluster_secret {
        Some(secret) => Some(
            (
                match config.fileserver_url {
                    Some(u) => u@,
                    None => "https://veloce-fileserver-ha:9001"@,
                },
                match config.fileserver_api_key {
                    Some(k) => k@,
                    None => secret@,
                },
            ),
        ),
        None => None,
    }
}

/// The file server of a worker: the configured one, or the usual one with the cluster's secret
/// as the key. A worker without a secret cannot run.
pub fn file_server(config: &Config) -> (r: Option<FileServer>)
    ensures
        (match r {
            Some(f) => Some((f.url@, f.api_key@)),
            None => None,
        }) == server_of(*config),
        r is Some <==> config.cluster_secret is Some,
        r matches Some(f) ==> f.url@ == (match config.fileserver_url {
            Some(u) => u@,
            None => "https://veloce-fileserver-ha:9001"@,
        }) && f.api_key@ == (match config.fileserver_api_key {
            Some(k) => k@,
            None => config.cluster_secret->0@,
        }),
{
    let secret: String = match &config.cluster_secret {
        Some(s) => s.clone(),
        None => {
            return None;
        },
    };
    Some(
        FileServer {
            url: match &config.fileserver_url {
                Some(u) => u.clone(),
                None => "https://veloce-fileserver-ha:9001".to_owned(),
            },
            api_key: match &config.fileserver_api_key {
                Some(k) => k.clone(),
                None => secret,
            },
        },
    )
}

/// A cluster that still uses the secret it came with.
pub fn uses_default_secret(secret: &str) -> (r: bool)
    ensures
        r == (secret@ == "veloce_default_secret_change_me"@),
{
    str_eq(secret, "veloce_default_secret_change_me")
}

/// The arguments for creating the user's group and the user.
pub fn host_user_commands(
    user: &Option<String>,
    uid: &Option<String>,
    gid: &Option<String>,
) -> (r: Option<(Vec<String>, Vec<String>)>)
    ensures
        r is Some <==> user is Some && uid is Some && gid is Some && user->0@.len() > 0
            && uid->0@.len() > 0 && gid->0@.len() > 0,
        r matches Some(c) ==> texts(c.0@) == seq!["-g"@, gid->0@, user->0@] && texts(c.1@) == seq![
            "-u"@,
            uid->0@,
            "-g"@,
            gid->0@,
            "-m"@,
            "-s"@,
            "/bin/bash"@,
            user->0@,
        ],
{
    match (user, uid, gid) {
        (Some(u), Some(i), Some(g)) => {
            if u.as_str().is_empty() || i.as_str().is_empty() || g.as_str().is_empty() {
                return None;
            }
            let mut group_args: Vec<String> = Vec::new();
            group_args.push("-g".to_owned());
            group_args.push(g.clone());
            group_args.push(u.clone());
            let mut user_args: Vec<String> = Vec::new();
            user_args.push("-u".to_owned());
            user_args.push(i.clone());
            user_args.push("-g".to_owned());
            user_args.push(g.clone());
            user_args.push("-m".to_owned());
            user_args.push("-s".to_owned());
            user_args.push("/bin/bash".to_owned());
            user_args.push(u.clone());
            assert(texts(group_args@) =~= seq!["-g"@, g@, u@]);
            assert(texts(user_args@) =~= seq![
                "-u"@,
                i@,
                "-g"@,
                g@,
                "-m"@,
                "-s"@,
                "/bin/bash"@,
                u@,
            ]);
            Some((group_args, user_args))
        },
        _ => None,
    }
}

/// What the command line says goes before the configuration; where it says nothing, the
/// configuration stays.
pub proof fn law_the_command_line_goes_first(given: Option<String>, base: Option<String>)
    ensures
        given is Some ==> over(given, base) == Some(given->0@),
        given is None && base is Some ==> over(given, base) == Some(base->0@),
        given is None && base is None ==> over(given, base) is None,
{
}

/// There is always a controller to look for. None of those that are listed or named is left out, and
/// none but these is looked for; the one that is named is looked for first unless it is listed.
pub proof fn law_every_named_controller_is_looked_for(
    list: Seq<Seq<char>>,
    named: Option<Seq<char>>,
    c: Seq<char>,
)
    ensures
        controllers_of(list, named).len() > 0,
        list.contains(c) ==> controllers_of(list, named).contains(c),
        named == Some(c) ==> controllers_of(list, named).contains(c),
        named == Some(c) && !list.contains(c) ==> controllers_of(list, named)[0] == c,
        list.len() > 0 || named is Some ==> (controllers_of(list, named).contains(c)
            ==> list.contains(c) || named == Some(c)),
        list.len() == 0 && named is None ==> controllers_of(list, named) == seq![
            "127.0.0.1:9000"@,
        ],
{
    let all = controllers_of(list, named);
    if list.contains(c) {
        let i = choose|i: int| 0 <= i < list.len() && list[i] == c;
        if let Some(n) = named {
            if !list.contains(n) {
                assert((seq![n] + list)[i + 1] == c);
            }
        }
        assert(all.contains(c));
    }
    if named == Some(c) && !list.contains(c) {
        assert((seq![c] + list)[0] == c);
    }
    if (list.len() > 0 || named is Some) && all.contains(c) {
        let i = choose|i: int| 0 <= i < all.len() && all[i] == c;
        if let Some(n) = named {
            if !list.contains(n) {
                if i > 0 {
                    assert(list[i - 1] == c);
                }
            }
        }
    }
}

/// Each setting is overridden by the word of the command line for it, and by no other; what the
/// command line does not speak of stays.
pub proof fn law_settings_are_overridden_one_by_one(c: Config, o: Overrides)
    ensures
        ({
            let r = overridden(c, o);
            &&& o.controller is Some ==> r.controller == Some(o.controller->0@)
            &&& o.controller is None ==> r.controller == optional_text(c.controller)
            &&& o.cluster_secret is Some ==> r.cluster_secret == Some(o.cluster_secret->0@)
            &&& o.cluster_secret is None ==> r.cluster_secret == optional_text(c.cluster_secret)
            &&& o.fileserver_url is Some ==> r.fileserver_url == Some(o.fileserver_url->0@)
            &&& o.fileserver_url is None ==> r.fileserver_url == optional_text(c.fileserver_url)
            &&& o.fileserver_api_key is Some ==> r.fileserver_api_key == Some(
                o.fileserver_api_key->0@,
            )
            &&& o.fileserver_api_key is None ==> r.fileserver_api_key == optional_text(
                c.fileserver_api_key,
            )
            &&& o.worker_token is Some ==> r.worker_token == Some(o.worker_token->0@)
            &&& o.worker_token is None ==> r.worker_token == optional_text(c.worker_token)
            &&& o.idle_timeout_seconds is Some ==> r.idle_timeout_seconds == o.idle_timeout_seconds
            &&& o.idle_timeout_seconds is None ==> r.idle_timeout_seconds == c.idle_timeout_seconds
            &&& o.controllers is None ==> r.controllers == texts(c.controllers@)
            &&& r.prolog == optional_text(c.prolog) && r.epilog == optional_text(c.epilog)
            &&& r.run_as_worker_user == c.run_as_worker_user
        }),
{
}

/// A list of controllers on the command line is taken apart at its commas, without the white space
/// around the names.
pub proof fn law_listed_controllers_are_read(c: Config, o: Overrides, names: Seq<Seq<char>>)
    requires
        names.len() > 0,
        forall|i: int| 0 <= i < names.len() ==> !(#[trigger] names[i]).contains(','),
        o.controllers is Some && o.controllers->0@ == crate::pieces::joined(names, seq![',']),
    ensures
        overridden(c, o).controllers.len() == names.len(),
        forall|i: int|
            0 <= i < names.len() ==> #[trigger] overridden(c, o).controllers[i] == trimmed(
                names[i],
            ),
{
    crate::pieces::law_split_undoes_join(names, ',');
}

/// A worker keeps its files where its configuration says, with the key that it names; without one
/// its key is the secret of the cluster. Without a secret there are no files.
pub proof fn law_files_are_kept_as_configured(c: Config)
    ensures
        server_of(c) is Some <==> c.cluster_secret is Some,
        c.cluster_secret is Some ==> {
            let s = server_of(c)->0;
            &&& c.fileserver_url is Some ==> s.0 == c.fileserver_url->0@
            &&& c.fileserver_url is None ==> s.0 == "https://veloce-fileserver-ha:9001"@
            &&& c.fileserver_api_key is Some ==> s.1 == c.fileserver_api_key->0@
            &&& c.fileserver_api_key is None ==> s.1 == c.cluster_secret->0@
        },
{
}

/// A worker that loses its controller tries the next of the list, and the first after the last; a
/// worker that takes no more jobs leaves.
pub proof fn law_controllers_are_tried_in_turn(current: usize, count: usize)
    requires
        current < count,
    ensures
        then_try(current, count, true) is None,
        current + 1 < count ==> then_try(current, count, false) == Some((current + 1, 5int)),
        current + 1 == count ==> then_try(current, count, false) == Some((0int, 5int)),
{
    if current + 1 == count {
        assert((current + 1) % count as int == 0) by (nonlinear_arith)
            requires
                current + 1 == count,
                count > 0,
        ;
    } else {
        assert((current + 1) % count as int == current + 1) by (nonlinear_arith)
            requires
                0 <= current,
                current + 1 < count,
        ;
    }
}

} // verus!
