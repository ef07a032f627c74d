//! Signing in and out, what a user may see, and the stream of events that keeps the console up
//! to date.

use vstd::prelude::*;

use crate::numbers::decimal;
use crate::numbers::decimal_u32;
use crate::pieces::join;
use crate::pieces::joined;
use crate::pieces::split_char;
use crate::pieces::split_on;
use crate::text::ends_with;
use crate::text::has_suffix;
use crate::text::str_eq;
use crate::text::texts;
use crate::text::trim;
use crate::text::trimmed;
use crate::web::api::is_ok;
use crate::web::api::ok;

verus! {

/// The user has signed in through the identity provider.
pub open spec fn by_provider(flag: Option<String>) -> bool {
    flag is Some && flag->0@ == "true"@
}

/// A role stands in a list of roles that are parted by commas.
pub open spec fn has_role(roles: Seq<char>, role: Seq<char>) -> bool {
    exists|i: int|
        0 <= i < split_on(roles, ',').len() && trimmed(#[trigger] split_on(roles, ',')[i]) == role
}

fn holds_role(roles: &str, role: &str) -> (r: bool)
    ensures
        r == has_role(roles@, role@),
{
    let parts: Vec<String> = split_char(roles, ',');
    let ghost all = split_on(roles@, ',');
    let mut i: usize = 0;
    while i < parts.len()
        invariant
            i <= parts@.len(),
            texts(parts@) == all,
            all == split_on(roles@, ','),
            forall|k: int| 0 <= k < i ==> trimmed(#[trigger] all[k]) != role@,
        decreases parts@.len() - i,
    {
        assert(all[i as int] == parts@[i as int]@);
        if str_eq(&trim(&parts[i]), role) {
            return true;
        }
        i = i + 1;
    }
    false
}

/// A user who signed in through the identity provider may see what administrators and operators
/// may see if one of these is among their roles; one who signed in with the key of the controller
/// may see everything.
pub open spec fn operates(flag: Option<String>, roles: Option<String>) -> bool {
    by_provider(flag) ==> roles is Some && (has_role(roles->0@, "admin"@) || has_role(
        roles->0@,
        "operator"@,
    ))
}

pub fn has_admin_operator_privileges(flag: &Option<String>, roles: &Option<String>) -> (r: bool)
    ensures
        r == operates(*flag, *roles),
{
    let provider: bool = match flag {
        Some(flag) => str_eq(flag, "true"),
        None => false,
    };
    if provider {
        match roles {
            Some(roles) => holds_role(roles, "admin") || holds_role(roles, "operator"),
            None => false,
        }
    } else {
        true
    }
}

/// A user may do what administrators may do.
pub open spec fn administers(flag: Option<String>, roles: Option<String>) -> bool {
    by_provider(flag) ==> roles is Some && has_role(roles->0@, "admin"@)
}

pub fn has_admin_privileges(flag: &Option<String>, roles: &Option<String>) -> (r: bool)
    ensures
        r == administers(*flag, *roles),
{
    let provider: bool = match flag {
        Some(flag) => str_eq(flag, "true"),
        None => false,
    };
    if provider {
        match roles {
            Some(roles) => holds_role(roles, "admin"),
            None => false,
        }
    } else {
        true
    }
}

/// Whoever may administer may also operate.
pub proof fn law_administrators_may_operate(flag: Option<String>, roles: Option<String>)
    requires
        administers(flag, roles),
    ensures
        operates(flag, roles),
{
}

/// The pages that only administrators and operators see.
pub open spec fn is_privileged_page(path: Seq<char>) -> bool {
    path == "/telemetry"@ || path == "/statistics"@ || path == "/admin"@
}

/// Whether a page is shown to a user.
pub fn may_view(path: &str, flag: &Option<String>, roles: &Option<String>) -> (r: bool)
    ensures
        r == (is_privileged_page(path@) ==> operates(*flag, *roles)),
{
    if str_eq(path, "/telemetry") || str_eq(path, "/statistics") || str_eq(path, "/admin") {
        has_admin_operator_privileges(flag, roles)
    } else {
        true
    }
}

/// What is wrong with a key before it is tried.
pub fn check_key(key: &str) -> (r: Option<&'static str>)
    ensures
        r is Some <==> key@.len() == 0,
        r matches Some(text) ==> text@ == "Controller API Key is required"@,
{
    if key.is_empty() {
        Some("Controller API Key is required")
    } else {
        None
    }
}

/// What is said of a key that the controller refused.
pub open spec fn refusal(status: u16) -> Option<Seq<char>> {
    if is_ok(status) {
        None
    } else if status == 401 {
        Some("Invalid Controller API Key"@)
    } else {
        Some("Server returned error: "@ + decimal(status as nat))
    }
}

/// What is said of the controller's answer to a key; of one that it takes, nothing.
pub fn login_refusal(status: u16) -> (r: Option<String>)
    ensures
        match refusal(status) {
            Some(text) => r is Some && r->0@ == text,
            None => r is None,
        },
{
    if ok(status) {
        None
    } else if status == 401 {
        Some("Invalid Controller API Key".to_string())
    } else {
        let mut r: String = "Server returned error: ".to_string();
        r.append(&decimal_u32(status as u32));
        Some(r)
    }
}

/// What is said if the controller cannot be reached.
pub fn login_unreachable(error: &str) -> (r: String)
    ensures
        r@ == "Connection error: "@ + error@,
{
    let mut r: String = "Connection error: ".to_string();
    r.append(error);
    r
}

/// How the console is set up.
pub struct WebConfig {
    pub controller_api_key: String,
    pub fileserver_url: String,
    pub fileserver_api_key: String,
    pub oidc_enabled: bool,
}

/// The key that signs requests.
pub open spec fn key_used(oidc_enabled: bool, fetched: Seq<char>, key: Option<Seq<char>>) -> Seq<
    char,
> {
    if oidc_enabled {
        fetched
    } else if key is Some {
        key->0
    } else {
        ""@
    }
}

/// The setup that was fetched, with the stored key where no identity provider is in use.
pub fn with_stored_key(config: WebConfig, key: Option<String>) -> (r: WebConfig)
    ensures
        r.controller_api_key@ == key_used(
            config.oidc_enabled,
            config.controller_api_key@,
            crate::text::optional_text(key),
        ),
        r.oidc_enabled == config.oidc_enabled,
        r.fileserver_url == config.fileserver_url,
        r.fileserver_api_key == config.fileserver_api_key,
        r.controller_api_key@ == if config.oidc_enabled {
            config.controller_api_key@
        } else if key is Some {
            key->0@
        } else {
            ""@
        },
{
    if config.oidc_enabled {
        config
    } else {
        let controller_api_key: String = match key {
            Some(key) => key,
            None => "".to_string(),
        };
        WebConfig {
            controller_api_key,
            fileserver_url: config.fileserver_url,
            fileserver_api_key: config.fileserver_api_key,
            oidc_enabled: false,
        }
    }
}

/// Whether a session is taken up again: a key is stored, or the mark of the identity provider.
pub fn starts_logged_in(key: &Option<String>, flag: &Option<String>) -> (r: bool)
    ensures
        r == (key is Some || flag is Some),
{
    key.is_some() || flag.is_some()
}

/// What the identity provider says of a session.
pub struct SessionStatus {
    pub authenticated: bool,
    pub user_id: Option<String>,
    pub roles: Option<Vec<String>>,
}

/// What is stored of a session; nothing, and everything is forgotten, if there is none.
pub open spec fn stored_items(status: Option<SessionStatus>) -> Option<
    Seq<(Seq<char>, Seq<char>)>,
> {
    if status is Some && status->0.authenticated {
        let s = status->0;
        let user = if s.user_id is Some {
            seq![("veloce_session_user_id"@, s.user_id->0@)]
        } else {
            Seq::empty()
        };
        let roles = if s.roles is Some {
            seq![("veloce_session_roles"@, joined(texts(s.roles->0@), ","@))]
        } else {
            Seq::empty()
        };
        Some(seq![("veloce_oidc_logged_in"@, "true"@)] + user + roles)
    } else {
        None
    }
}

pub open spec fn item_views(items: Seq<(&'static str, String)>) -> Seq<(Seq<char>, Seq<char>)> {
    Seq::new(items.len(), |i: int| (items[i].0@, items[i].1@))
}

/// The items to store for a session, or none if the user is to be signed out.
pub fn session_items(status: &Option<SessionStatus>) -> (r: Option<Vec<(&'static str, String)>>)
    ensures
        match stored_items(*status) {
            Some(items) => r is Some && item_views(r->0@) == items,
            None => r is None,
        },
{
    match status {
        Some(status) => if status.authenticated {
            let mut r: Vec<(&'static str, String)> = Vec::new();
            r.push(("veloce_oidc_logged_in", "true".to_string()));
            match &status.user_id {
                Some(user) => {
                    r.push(("veloce_session_user_id", user.clone()));
                },
                None => {},
            }
            match &status.roles {
                Some(roles) => {
                    r.push(("veloce_session_roles", join(roles, ",")));
                },
                None => {},
            }
            assert(item_views(r@) =~= stored_items(Some(*status))->0);
            Some(r)
        } else {
            None
        },
        None => None,
    }
}

/// How a user is signed out: by the identity provider, at the address given, or by forgetting
/// what is stored.
pub fn logout(oidc_enabled: bool) -> (r: Option<&'static str>)
    ensures
        r is Some <==> oidc_enabled,
        r matches Some(address) ==> address@ == "/auth/logout"@,
{
    if oidc_enabled {
        Some("/auth/logout")
    } else {
        None
    }
}

/// Whether a page takes the whole window.
pub fn is_fullscreen(path: &str) -> (r: bool)
    ensures
        r == (has_suffix(path@, "/vnc"@) || has_suffix(path@, "/terminal"@)),
{
    ends_with(path, "/vnc") || ends_with(path, "/terminal")
}

/// Whether the file server counts as online, by the status it answered with, if it did.
pub fn fileserver_is_online(status: Option<u16>) -> (r: bool)
    ensures
        r == (status is Some && status->0 < 500),
{
    match status {
        Some(status) => status < 500,
        None => false,
    }
}

/// Where the events come from: by the scheme of the page, over a connection of the same kind.
pub open spec fn events_path(protocol: Seq<char>, host: Seq<char>, ticket: Seq<char>) -> Seq<char> {
    (if protocol == "https:"@ {
        "wss:"@
    } else {
        "ws:"@
    }) + "//"@ + host + "/api/v1/ws/events?ticket="@ + ticket
}

pub fn events_url(protocol: &str, host: &str, ticket: &str) -> (r: String)
    ensures
        r@ == events_path(protocol@, host@, ticket@),
{
    let mut r: String = if str_eq(protocol, "https:") {
        "wss:".to_string()
    } else {
        "ws:".to_string()
    };
    r.append("//");
    r.append(host);
    r.append("/api/v1/ws/events?ticket=");
    r.append(ticket);
    r
}

/// Who listens to the stream of events.
#[derive(Clone, Copy, PartialEq, Eq, Structural)]
pub enum Listener {
    /// The console as a whole.
    App,
    /// The list of jobs.
    Jobs,
}

/// What is fetched anew.
#[derive(Clone, Copy, PartialEq, Eq, Structural)]
pub enum Refresh {
    Jobs,
    Nodes,
}

/// What happens to the stream of events.
pub enum StreamEvent {
    /// No ticket was given, for the reason that the status names.
    NoTicket(u16),
    /// The stream could not be opened.
    NotOpened,
    /// The stream is open.
    Opened,
    /// A message came.
    Message(String),
    /// The stream has ended.
    Closed,
}

/// What the console does about it: what it shows of the controller and as an error, what it
/// fetches, and how many milliseconds it waits before it tries again.
pub struct StreamStep {
    pub online: Option<bool>,
    pub error: Option<&'static str>,
    pub refresh: Option<Refresh>,
    pub retry_after: Option<u32>,
}

/// Why there are no events, in words.
pub open spec fn no_ticket_text(listener: Listener, status: u16) -> Option<Seq<char>> {
    match listener {
        Listener::App => Some(
            if status == 403 {
                "Controller event stream unavailable (insufficient role for WebSocket ticket)"@
            } else if status == 401 {
                "Controller event stream unavailable (session expired; sign in again)"@
            } else if status == 502 || status == 503 {
                "Controller event stream unavailable (controller unreachable; retrying)"@
            } else if status == 0 {
                "Controller event stream unavailable (network error)"@
            } else {
                "Controller event stream unavailable (WebSocket ticket denied)"@
            },
        ),
        Listener::Jobs => if status == 403 {
            Some("Live job updates unavailable (insufficient role for WebSocket ticket)"@)
        } else if status == 401 {
            Some("Live job updates unavailable (session expired; sign in again)"@)
        } else {
            None
        },
    }
}

/// What a message asks for.
pub open spec fn asked_for(listener: Listener, message: Seq<char>) -> Option<Refresh> {
    if message == "jobs_updated"@ {
        Some(Refresh::Jobs)
    } else if message == "nodes_updated"@ && listener == Listener::App {
        Some(Refresh::Nodes)
    } else {
        None
    }
}

pub fn ticket_failure(listener: Listener, status: u16) -> (r: Option<&'static str>)
    ensures
        match no_ticket_text(listener, status) {
            Some(text) => r is Some && r->0@ == text,
            None => r is None,
        },
{
    match listener {
        Listener::App => if status == 403 {
            Some("Controller event stream unavailable (insufficient role for WebSocket ticket)")
        } else if status == 401 {
            Some("Controller event stream unavailable (session expired; sign in again)")
        } else if status == 502 || status == 503 {
            Some("Controller event stream unavailable (controller unreachable; retrying)")
        } else if status == 0 {
            Some("Controller event stream unavailable (network error)")
        } else {
            Some("Controller event stream unavailable (WebSocket ticket denied)")
        },
        Listener::Jobs => if status == 403 {
            Some("Live job updates unavailable (insufficient role for WebSocket ticket)")
        } else if status == 401 {
            Some("Live job updates unavailable (session expired; sign in again)")
        } else {
            None
        },
    }
}

/// What the console does about an event.
pub ghost struct StepView {
    pub online: Option<bool>,
    pub error: Option<Seq<char>>,
    pub refresh: Option<Refresh>,
    pub retry_after: Option<u32>,
}

pub open spec fn step_view(s: StreamStep) -> StepView {
    StepView {
        online: s.online,
        error: match s.error {
            Some(e) => Some(e@),
            None => None,
        },
        refresh: s.refresh,
        retry_after: s.retry_after,
    }
}

pub open spec fn step_for(listener: Listener, event: StreamEvent) -> StepView {
    match event {
        StreamEvent::NoTicket(status) => StepView {
            online: Some(false),
            error: no_ticket_text(listener, status),
            refresh: None,
            retry_after: Some(5000u32),
        },
        StreamEvent::NotOpened => StepView {
            online: Some(false),
            error: None,
            refresh: None,
            retry_after: Some(5000u32),
        },
        StreamEvent::Opened => StepView {
            online: Some(true),
            error: None,
            refresh: None,
            retry_after: None,
        },
        StreamEvent::Message(text) => StepView {
            online: None,
            error: None,
            refresh: asked_for(listener, text@),
            retry_after: None,
        },
        StreamEvent::Closed => StepView {
            online: Some(false),
            error: None,
            refresh: None,
            retry_after: Some(2000u32),
        },
    }
}

pub fn on_stream_event(listener: Listener, event: &StreamEvent) -> (r: StreamStep)
    ensures
        step_view(r) == step_for(listener, *event),
        match *event {
            StreamEvent::NoTicket(status) => r.online == Some(false) && r.refresh is None
                && r.retry_after == Some(5000u32) && match no_ticket_text(listener, status) {
                Some(text) => r.error is Some && r.error->0@ == text,
                None => r.error is None,
            },
            StreamEvent::NotOpened => r.online == Some(false) && r.error is None && r.refresh is None
                && r.retry_after == Some(5000u32),
            StreamEvent::Opened => r.online == Some(true) && r.error is None && r.refresh is None
                && r.retry_after is None,
            StreamEvent::Message(text) => r.online is None && r.error is None && r.refresh
                == asked_for(listener, text@) && r.retry_after is None,
            StreamEvent::Closed => r.online == Some(false) && r.error is None && r.refresh is None
                && r.retry_after == Some(2000u32),
        },
{
    match event {
        StreamEvent::NoTicket(status) => StreamStep {
            online: Some(false),
            error: ticket_failure(listener, *status),
            refresh: None,
            retry_after: Some(5000),
        },
        StreamEvent::NotOpened => StreamStep {
            online: Some(false),
            error: None,
            refresh: None,
            retry_after: Some(5000),
        },
        StreamEvent::Opened => StreamStep {
            online: Some(true),
            error: None,
            refresh: None,
            retry_after: None,
        },
        StreamEvent::Message(text) => {
            let refresh: Option<Refresh> = if str_eq(text, "jobs_updated") {
                Some(Refresh::Jobs)
            } else if listener == Listener::App && str_eq(text, "nodes_updated") {
                Some(Refresh::Nodes)
            } else {
                None
            };
            StreamStep { online: None, error: None, refresh, retry_after: None }
        },
        StreamEvent::Closed => StreamStep {
            online: Some(false),
            error: None,
            refresh: None,
            retry_after: Some(2000),
        },
    }
}

/// A role that stands in the list is found, with or without spaces around it; one that does not is
/// not.
pub proof fn law_roles_are_found_in_the_list(roles: Seq<Seq<char>>, role: Seq<char>)
    requires
        roles.len() > 0,
        forall|i: int| 0 <= i < roles.len() ==> !(#[trigger] roles[i]).contains(','),
    ensures
        has_role(joined(roles, seq![',']), role) <==> exists|i: int|
            0 <= i < roles.len() && trimmed(#[trigger] roles[i]) == role,
{
    crate::pieces::law_split_undoes_join(roles, ',');
}

/// Who signed in with the key may see and do everything. Who signed in through the identity provider
/// may operate as administrator or as operator, may administer as administrator only, and neither
/// without roles.
pub proof fn law_roles_decide_for_provider_users(flag: Option<String>, roles: Option<String>)
    ensures
        flag is None ==> operates(flag, roles) && administers(flag, roles),
        flag is Some && flag->0@ != "true"@ ==> operates(flag, roles) && administers(flag, roles),
        flag is Some && flag->0@ == "true"@ ==> {
            &&& roles is None ==> !operates(flag, roles) && !administers(flag, roles)
            &&& roles is Some ==> (administers(flag, roles) <==> has_role(roles->0@, "admin"@))
            &&& roles is Some ==> (operates(flag, roles) <==> has_role(roles->0@, "admin"@)
                || has_role(roles->0@, "operator"@))
        },
{
}

/// The pages of telemetry, of statistics and of administration are for administrators and operators;
/// every other page is for all.
pub proof fn law_three_pages_are_privileged(path: Seq<char>)
    ensures
        is_privileged_page("/telemetry"@) && is_privileged_page("/statistics"@)
            && is_privileged_page("/admin"@),
        path != "/telemetry"@ && path != "/statistics"@ && path != "/admin"@ ==> !is_privileged_page(
            path,
        ),
{
}

/// A key is refused exactly if the controller does not grant the request, and called invalid exactly
/// if it says that the user is not known.
pub proof fn law_refused_keys_are_told(status: u16)
    ensures
        refusal(status) is None <==> 200 <= status <= 299,
        status == 401 ==> refusal(status) == Some("Invalid Controller API Key"@),
        status != 401 && !(200 <= status <= 299) ==> refusal(status) == Some(
            "Server returned error: "@ + decimal(status as nat),
        ),
{
}

/// A session of the identity provider is kept exactly if it stands; who the user is and which roles
/// they have is kept where it is told, and the roles can be read back.
pub proof fn law_sessions_are_kept_as_told(status: SessionStatus)
    ensures
        stored_items(None) is None,
        stored_items(Some(status)) is Some <==> status.authenticated,
        status.authenticated ==> {
            let items = stored_items(Some(status))->0;
            &&& items.contains(("veloce_oidc_logged_in"@, "true"@))
            &&& status.user_id is Some ==> items.contains(
                ("veloce_session_user_id"@, status.user_id->0@),
            )
            &&& status.roles is Some ==> items.contains(
                ("veloce_session_roles"@, joined(texts(status.roles->0@), ","@)),
            )
            &&& items.len() == 1 + (if status.user_id is Some {
                1int
            } else {
                0
            }) + (if status.roles is Some {
                1int
            } else {
                0
            })
        },
{
    if status.authenticated {
        let items = stored_items(Some(status))->0;
        assert(items[0] == ("veloce_oidc_logged_in"@, "true"@));
        if status.user_id is Some {
            assert(items[1] == ("veloce_session_user_id"@, status.user_id->0@));
        }
        if status.roles is Some {
            assert(items[items.len() - 1] == (
                "veloce_session_roles"@,
                joined(texts(status.roles->0@), ","@),
            ));
        }
    }
}

/// Events come over a safe connection exactly where the page did, from the host of the page and with
/// the ticket.
pub proof fn law_events_come_as_safely_as_the_page(host: Seq<char>, ticket: Seq<char>)
    ensures
        events_path("https:"@, host, ticket) == "wss:"@ + "//"@ + host
            + "/api/v1/ws/events?ticket="@ + ticket,
        events_path("http:"@, host, ticket) == "ws:"@ + "//"@ + host + "/api/v1/ws/events?ticket="@
            + ticket,
{
    reveal_strlit("https:");
    reveal_strlit("http:");
    assert("https:"@.len() == 6);
    assert("http:"@.len() == 5);
}

/// A change of jobs is fetched by whoever listens, a change of workers by the console as a whole;
/// other messages fetch nothing.
pub proof fn law_changes_are_fetched(listener: Listener, message: Seq<char>)
    ensures
        asked_for(listener, "jobs_updated"@) == Some(Refresh::Jobs),
        asked_for(Listener::App, "nodes_updated"@) == Some(Refresh::Nodes),
        asked_for(Listener::Jobs, "nodes_updated"@) is None,
        message != "jobs_updated"@ && message != "nodes_updated"@ ==> asked_for(
            listener,
            message,
        ) is None,
{
    reveal_strlit("jobs_updated");
    reveal_strlit("nodes_updated");
    assert("jobs_updated"@.len() == 12);
    assert("nodes_updated"@.len() == 13);
}

/// A stream that ends or cannot be had shows the controller as offline and is tried again; one that
/// is open shows it as online and is not. Only a message leads to something being fetched.
pub proof fn law_streams_are_tried_again(listener: Listener, event: StreamEvent)
    ensures
        ({
            let step = step_for(listener, event);
            &&& step.online == Some(true) <==> event is Opened
            &&& step.online is None <==> event is Message
            &&& step.retry_after is Some <==> step.online == Some(false)
            &&& event is Closed ==> step.retry_after == Some(2000u32)
            &&& event is NoTicket || event is NotOpened ==> step.retry_after == Some(5000u32)
            &&& step.refresh is Some ==> event is Message
            &&& step.error is Some ==> event is NoTicket
            &&& event matches StreamEvent::NoTicket(status) ==> (listener == Listener::App
                ==> step.error is Some)
        }),
{
}

/// The key that was typed is used exactly where no identity provider is; with one, the key that was
/// fetched is.
pub proof fn law_stored_keys_are_for_key_users(fetched: Seq<char>, typed: Seq<char>)
    ensures
        key_used(true, fetched, Some(typed)) == fetched,
        key_used(true, fetched, None) == fetched,
        key_used(false, fetched, Some(typed)) == typed,
        key_used(false, fetched, None).len() == 0,
{
    reveal_strlit("");
}

} // verus!
