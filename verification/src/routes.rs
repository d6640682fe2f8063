//! Which handler answers a request, and behind which credential.
//!
//! The daemon's surface is a table over the method and the path's segments:
//! unauthenticated probes and the dashboard; the OpenAI-compatible gateway
//! under `/v1` (serve credential); the hub under `/hub` (only in hub mode,
//! with a credential per route); and the control API under `/api` (operator
//! credential, except the read-only discovery routes a consumer may use).
//! Where a route names something by a path segment, the route carries that
//! segment's position.
use vstd::prelude::*;
use crate::json::{member, Json};
use crate::text::{chars_eq_str, chars_of};

verus! {

/// A control-API route (`/api/...`).
#[derive(Debug, Clone, Copy, PartialEq, Eq, Structural)]
pub enum ApiRoute {
    /// Changes are refused while the daemon shuts down.
    ShuttingDown,
    DrainStatus,
    DrainResume,
    DrainBegin,
    DrainMethodNotAllowed,
    Gpus,
    Node,
    Engines,
    Capabilities,
    Models,
    ModelsGc,
    ModelRemove { at: usize },
    Plan,
    SessionList,
    SessionUpsert,
    SessionGet { at: usize },
    SessionRemove { at: usize },
    SessionLease { at: usize },
    LeaseStatus { at: usize },
    LeaseRelease { at: usize },
    VramEnsure { at: usize },
    VramStatus { at: usize },
    VramRelease { at: usize },
    ServerList,
    ServerStart,
    ServerGet { at: usize },
    ServerStop { at: usize },
    Unknown,
}

/// A hub route (`/hub/...`). Node ids are the path's third segment and a
/// server id its fifth.
#[derive(Debug, Clone, Copy, PartialEq, Eq, Structural)]
pub enum HubRoute {
    /// Operator: create a one-time pairing code.
    Pairings,
    /// A device redeems a pairing code.
    Pair,
    /// Farm token: a node registers.
    Register,
    /// A node's liveness beat.
    Heartbeat,
    /// Operator: the roster.
    Nodes,
    /// Operator: forget a node.
    NodeRemove,
    /// Operator: serve a model on a node.
    NodeServe,
    /// Operator: stop a node's endpoint.
    NodeStopServer,
    /// Operator: route a task across the fleet.
    Dispatch,
    Unknown,
}

#[derive(Debug, Clone, Copy, PartialEq, Eq, Structural)]
pub enum Route {
    Dashboard,
    Healthz,
    Readyz,
    /// Prometheus metrics, behind the operator credential.
    Metrics,
    Version,
    /// The gateway; the rest of the path follows `v1`.
    Gateway,
    /// `/hub` on a daemon that is not a hub.
    NotHub,
    Hub(HubRoute),
    /// `/api`: `discovery` when the consumer credential suffices.
    Api { discovery: bool, route: ApiRoute },
    NotFound,
}

/// Segment `i` of `s` is `lit`.
pub open spec fn seg(s: Seq<Seq<char>>, i: int, lit: Seq<char>) -> bool {
    0 <= i < s.len() && s[i] == lit
}

/// The `/api` table; `s` is the whole path, `api` at its head.
pub open spec fn api_route_spec(m: Seq<char>, s: Seq<Seq<char>>, shutting_down: bool) -> ApiRoute {
    let n = s.len();
    if shutting_down && m != "GET"@ {
        ApiRoute::ShuttingDown
    } else if n == 2 && seg(s, 1, "drain"@) {
        if m == "GET"@ {
            ApiRoute::DrainStatus
        } else if m == "DELETE"@ {
            ApiRoute::DrainResume
        } else if m == "POST"@ {
            ApiRoute::DrainBegin
        } else {
            ApiRoute::DrainMethodNotAllowed
        }
    } else if m == "GET"@ && n == 2 && seg(s, 1, "gpus"@) {
        ApiRoute::Gpus
    } else if m == "GET"@ && n == 2 && seg(s, 1, "node"@) {
        ApiRoute::Node
    } else if m == "GET"@ && n == 2 && seg(s, 1, "engines"@) {
        ApiRoute::Engines
    } else if m == "GET"@ && n == 2 && seg(s, 1, "capabilities"@) {
        ApiRoute::Capabilities
    } else if m == "GET"@ && n == 2 && seg(s, 1, "models"@) {
        ApiRoute::Models
    } else if m == "POST"@ && n == 3 && seg(s, 1, "models"@) && seg(s, 2, "gc"@) {
        ApiRoute::ModelsGc
    } else if m == "DELETE"@ && n == 3 && seg(s, 1, "models"@) {
        ApiRoute::ModelRemove { at: 2 }
    } else if m == "POST"@ && n == 2 && seg(s, 1, "plan"@) {
        ApiRoute::Plan
    } else if m == "GET"@ && ((n == 2 && seg(s, 1, "sessions"@)) || (n == 3 && seg(s, 1, "knossos"@) && seg(s, 2, "sessions"@))) {
        ApiRoute::SessionList
    } else if m == "POST"@ && ((n == 2 && seg(s, 1, "sessions"@)) || (n == 3 && seg(s, 1, "knossos"@) && seg(s, 2, "sessions"@))) {
        ApiRoute::SessionUpsert
    } else if m == "GET"@ && n == 3 && seg(s, 1, "sessions"@) {
        ApiRoute::SessionGet { at: 2 }
    } else if m == "GET"@ && n == 4 && seg(s, 1, "knossos"@) && seg(s, 2, "sessions"@) {
        ApiRoute::SessionGet { at: 3 }
    } else if m == "DELETE"@ && n == 3 && seg(s, 1, "sessions"@) {
        ApiRoute::SessionRemove { at: 2 }
    } else if m == "DELETE"@ && n == 4 && seg(s, 1, "knossos"@) && seg(s, 2, "sessions"@) {
        ApiRoute::SessionRemove { at: 3 }
    } else if m == "POST"@ && n == 4 && seg(s, 1, "sessions"@) && seg(s, 3, "lease"@) {
        ApiRoute::SessionLease { at: 2 }
    } else if m == "POST"@ && n == 5 && seg(s, 1, "knossos"@) && seg(s, 2, "sessions"@) && seg(s, 4, "lease"@) {
        ApiRoute::SessionLease { at: 3 }
    } else if m == "GET"@ && n == 4 && seg(s, 1, "sessions"@) && seg(s, 3, "lease"@) {
        ApiRoute::LeaseStatus { at: 2 }
    } else if m == "DELETE"@ && n == 4 && seg(s, 1, "sessions"@) && seg(s, 3, "lease"@) {
        ApiRoute::LeaseRelease { at: 2 }
    } else if n == 5 && seg(s, 1, "knossos"@) && seg(s, 2, "sessions"@) && seg(s, 4, "vram"@) && m == "POST"@ {
        ApiRoute::VramEnsure { at: 3 }
    } else if n == 5 && seg(s, 1, "knossos"@) && seg(s, 2, "sessions"@) && seg(s, 4, "vram"@) && m == "GET"@ {
        ApiRoute::VramStatus { at: 3 }
    } else if n == 5 && seg(s, 1, "knossos"@) && seg(s, 2, "sessions"@) && seg(s, 4, "vram"@) && m == "DELETE"@ {
        ApiRoute::VramRelease { at: 3 }
    } else if m == "GET"@ && n == 2 && seg(s, 1, "servers"@) {
        ApiRoute::ServerList
    } else if m == "POST"@ && n == 2 && seg(s, 1, "servers"@) {
        ApiRoute::ServerStart
    } else if m == "GET"@ && n == 3 && seg(s, 1, "servers"@) {
        ApiRoute::ServerGet { at: 2 }
    } else if m == "DELETE"@ && n == 3 && seg(s, 1, "servers"@) {
        ApiRoute::ServerStop { at: 2 }
    } else {
        ApiRoute::Unknown
    }
}

/// The `/hub` table; `s` is the whole path, `hub` at its head.
pub open spec fn hub_route_spec(m: Seq<char>, s: Seq<Seq<char>>) -> HubRoute {
    let n = s.len();
    if m == "POST"@ && n == 2 && seg(s, 1, "pairings"@) {
        HubRoute::Pairings
    } else if m == "POST"@ && n == 2 && seg(s, 1, "pair"@) {
        HubRoute::Pair
    } else if m == "POST"@ && n == 2 && seg(s, 1, "register"@) {
        HubRoute::Register
    } else if m == "POST"@ && n == 2 && seg(s, 1, "heartbeat"@) {
        HubRoute::Heartbeat
    } else if m == "GET"@ && n == 2 && seg(s, 1, "nodes"@) {
        HubRoute::Nodes
    } else if m == "DELETE"@ && n == 3 && seg(s, 1, "nodes"@) {
        HubRoute::NodeRemove
    } else if m == "POST"@ && n == 4 && seg(s, 1, "nodes"@) && seg(s, 3, "servers"@) {
        HubRoute::NodeServe
    } else if m == "DELETE"@ && n == 5 && seg(s, 1, "nodes"@) && seg(s, 3, "servers"@) {
        HubRoute::NodeStopServer
    } else if m == "POST"@ && n == 2 && seg(s, 1, "dispatch"@) {
        HubRoute::Dispatch
    } else {
        HubRoute::Unknown
    }
}

/// The whole table.
pub open spec fn route_spec(m: Seq<char>, s: Seq<Seq<char>>, hub_enabled: bool, shutting_down: bool) -> Route {
    let n = s.len();
    if m == "GET"@ && n == 0 {
        Route::Dashboard
    } else if m == "GET"@ && n == 1 && seg(s, 0, "healthz"@) {
        Route::Healthz
    } else if m == "GET"@ && n == 1 && seg(s, 0, "readyz"@) {
        Route::Readyz
    } else if m == "GET"@ && n == 1 && seg(s, 0, "metrics"@) {
        Route::Metrics
    } else if m == "GET"@ && n == 1 && seg(s, 0, "version"@) {
        Route::Version
    } else if seg(s, 0, "v1"@) {
        Route::Gateway
    } else if seg(s, 0, "hub"@) {
        if hub_enabled { Route::Hub(hub_route_spec(m, s)) } else { Route::NotHub }
    } else if seg(s, 0, "api"@) {
        Route::Api {
            discovery: m == "GET"@ && n == 2 && (seg(s, 1, "engines"@) || seg(s, 1, "capabilities"@)),
            route: api_route_spec(m, s, shutting_down),
        }
    } else {
        Route::NotFound
    }
}

fn seg_is(s: &[String], i: usize, lit: &str) -> (r: bool)
    ensures
        r == seg(s@.map_values(|x: String| x@), i as int, lit@),
{
    if i < s.len() {
        let c = chars_of(s[i].as_str());
        chars_eq_str(&c, lit)
    } else {
        false
    }
}

fn is_method(m: &[char], lit: &str) -> (r: bool)
    ensures
        r == (m@ == lit@),
{
    chars_eq_str(m, lit)
}

fn api_route(m: &[char], s: &[String], shutting_down: bool) -> (r: ApiRoute)
    ensures
        r == api_route_spec(m@, s@.map_values(|x: String| x@), shutting_down),
{
    let ghost v = s@.map_values(|x: String| x@);
    let n = s.len();
    let get = is_method(m, "GET");
    let post = is_method(m, "POST");
    let delete = is_method(m, "DELETE");
    if shutting_down && !get {
        return ApiRoute::ShuttingDown;
    }
    if n == 2 && seg_is(s, 1, "drain") {
        return if get {
            ApiRoute::DrainStatus
        } else if delete {
            ApiRoute::DrainResume
        } else if post {
            ApiRoute::DrainBegin
        } else {
            ApiRoute::DrainMethodNotAllowed
        };
    }
    if get && n == 2 && seg_is(s, 1, "gpus") {
        return ApiRoute::Gpus;
    }
    if get && n == 2 && seg_is(s, 1, "node") {
        return ApiRoute::Node;
    }
    if get && n == 2 && seg_is(s, 1, "engines") {
        return ApiRoute::Engines;
    }
    if get && n == 2 && seg_is(s, 1, "capabilities") {
        return ApiRoute::Capabilities;
    }
    if get && n == 2 && seg_is(s, 1, "models") {
        return ApiRoute::Models;
    }
    if post && n == 3 && seg_is(s, 1, "models") && seg_is(s, 2, "gc") {
        return ApiRoute::ModelsGc;
    }
    if delete && n == 3 && seg_is(s, 1, "models") {
        return ApiRoute::ModelRemove { at: 2 };
    }
    if post && n == 2 && seg_is(s, 1, "plan") {
        return ApiRoute::Plan;
    }
    let sessions = (n == 2 && seg_is(s, 1, "sessions")) || (n == 3 && seg_is(s, 1, "knossos") && seg_is(s, 2, "sessions"));
    if get && sessions {
        return ApiRoute::SessionList;
    }
    if post && sessions {
        return ApiRoute::SessionUpsert;
    }
    let plain = seg_is(s, 1, "sessions");
    let knossos = seg_is(s, 1, "knossos") && seg_is(s, 2, "sessions");
    if get && n == 3 && plain {
        return ApiRoute::SessionGet { at: 2 };
    }
    if get && n == 4 && knossos {
        return ApiRoute::SessionGet { at: 3 };
    }
    if delete && n == 3 && plain {
        return ApiRoute::SessionRemove { at: 2 };
    }
    if delete && n == 4 && knossos {
        return ApiRoute::SessionRemove { at: 3 };
    }
    if post && n == 4 && plain && seg_is(s, 3, "lease") {
        return ApiRoute::SessionLease { at: 2 };
    }
    if post && n == 5 && knossos && seg_is(s, 4, "lease") {
        return ApiRoute::SessionLease { at: 3 };
    }
    if get && n == 4 && plain && seg_is(s, 3, "lease") {
        return ApiRoute::LeaseStatus { at: 2 };
    }
    if delete && n == 4 && plain && seg_is(s, 3, "lease") {
        return ApiRoute::LeaseRelease { at: 2 };
    }
    let vram = n == 5 && knossos && seg_is(s, 4, "vram");
    if vram && post {
        return ApiRoute::VramEnsure { at: 3 };
    }
    if vram && get {
        return ApiRoute::VramStatus { at: 3 };
    }
    if vram && delete {
        return ApiRoute::VramRelease { at: 3 };
    }
    let servers = seg_is(s, 1, "servers");
    if get && n == 2 && servers {
        return ApiRoute::ServerList;
    }
    if post && n == 2 && servers {
        return ApiRoute::ServerStart;
    }
    if get && n == 3 && servers {
        return ApiRoute::ServerGet { at: 2 };
    }
    if delete && n == 3 && servers {
        return ApiRoute::ServerStop { at: 2 };
    }
    ApiRoute::Unknown
}

fn hub_route(m: &[char], s: &[String]) -> (r: HubRoute)
    ensures
        r == hub_route_spec(m@, s@.map_values(|x: String| x@)),
{
    let n = s.len();
    let get = is_method(m, "GET");
    let post = is_method(m, "POST");
    let delete = is_method(m, "DELETE");
    if post && n == 2 && seg_is(s, 1, "pairings") {
        return HubRoute::Pairings;
    }
    if post && n == 2 && seg_is(s, 1, "pair") {
        return HubRoute::Pair;
    }
    if post && n == 2 && seg_is(s, 1, "register") {
        return HubRoute::Register;
    }
    if post && n == 2 && seg_is(s, 1, "heartbeat") {
        return HubRoute::Heartbeat;
    }
    let nodes = seg_is(s, 1, "nodes");
    if get && n == 2 && nodes {
        return HubRoute::Nodes;
    }
    if delete && n == 3 && nodes {
        return HubRoute::NodeRemove;
    }
    if post && n == 4 && nodes && seg_is(s, 3, "servers") {
        return HubRoute::NodeServe;
    }
    if delete && n == 5 && nodes && seg_is(s, 3, "servers") {
        return HubRoute::NodeStopServer;
    }
    if post && n == 2 && seg_is(s, 1, "dispatch") {
        return HubRoute::Dispatch;
    }
    HubRoute::Unknown
}

/// Routes a request by its method and path segments (see [`route_spec`]).
pub fn route_of(method: &str, segs: &[String], hub_enabled: bool, shutting_down: bool) -> (r: Route)
    ensures
        r == route_spec(method@, segs@.map_values(|x: String| x@), hub_enabled, shutting_down),
{
    let m = chars_of(method);
    let n = segs.len();
    let get = is_method(&m, "GET");
    if get && n == 0 {
        return Route::Dashboard;
    }
    if get && n == 1 && seg_is(segs, 0, "healthz") {
        return Route::Healthz;
    }
    if get && n == 1 && seg_is(segs, 0, "readyz") {
        return Route::Readyz;
    }
    if get && n == 1 && seg_is(segs, 0, "metrics") {
        return Route::Metrics;
    }
    if get && n == 1 && seg_is(segs, 0, "version") {
        return Route::Version;
    }
    if seg_is(segs, 0, "v1") {
        return Route::Gateway;
    }
    if seg_is(segs, 0, "hub") {
        return if hub_enabled { Route::Hub(hub_route(&m, segs)) } else { Route::NotHub };
    }
    if seg_is(segs, 0, "api") {
        let discovery = get && n == 2 && (seg_is(segs, 1, "engines") || seg_is(segs, 1, "capabilities"));
        return Route::Api { discovery, route: api_route(&m, segs, shutting_down) };
    }
    Route::NotFound
}

/// Law: every control route that changes state is behind the operator
/// credential; a consumer credential reaches only the two read-only
/// discovery routes.
pub proof fn law_consumers_only_discover(m: Seq<char>, s: Seq<Seq<char>>, hub_enabled: bool, shutting_down: bool)
    ensures
        match route_spec(m, s, hub_enabled, shutting_down) {
            Route::Api { discovery, route } => discovery ==> m == "GET"@ && (route == ApiRoute::Engines || route == ApiRoute::Capabilities),
            _ => true,
        },
{
    reveal_strlit("drain");
    reveal_strlit("gpus");
    reveal_strlit("node");
    reveal_strlit("engines");
    reveal_strlit("capabilities");
    reveal_strlit("GET");
    assert("drain"@.len() == 5 && "gpus"@.len() == 4 && "node"@.len() == 4);
    assert("engines"@.len() == 7 && "capabilities"@.len() == 12);
    if m == "GET"@ && s.len() == 2 && (seg(s, 1, "engines"@) || seg(s, 1, "capabilities"@)) {
        assert(!seg(s, 1, "drain"@));
        assert(!seg(s, 1, "gpus"@));
        assert(!seg(s, 1, "node"@));
        if seg(s, 1, "engines"@) {
            assert(api_route_spec(m, s, shutting_down) == ApiRoute::Engines);
        } else {
            assert(!seg(s, 1, "engines"@));
            assert(api_route_spec(m, s, shutting_down) == ApiRoute::Capabilities);
        }
    }
}

/// Law of the hub table: on a hub, each `/hub` route is reached by exactly
/// one method and path shape, whatever the drain state: creating a pairing
/// code, redeeming one, registering, beating and dispatching are `POST`s of
/// a two-segment path; the roster is a `GET` of `/hub/nodes`; forgetting a
/// node is a `DELETE` of `/hub/nodes/{id}`; serving on a node is a `POST` of
/// `/hub/nodes/{id}/servers`; stopping a node's endpoint is a `DELETE` of
/// `/hub/nodes/{id}/servers/{sid}`.
pub proof fn law_hub_table(m: Seq<char>, s: Seq<Seq<char>>, shutting_down: bool)
    ensures
        (route_spec(m, s, true, shutting_down) == Route::Hub(HubRoute::Pairings))
            <==> (m == "POST"@ && s == seq!["hub"@, "pairings"@]),
        (route_spec(m, s, true, shutting_down) == Route::Hub(HubRoute::Pair))
            <==> (m == "POST"@ && s == seq!["hub"@, "pair"@]),
        (route_spec(m, s, true, shutting_down) == Route::Hub(HubRoute::Register))
            <==> (m == "POST"@ && s == seq!["hub"@, "register"@]),
        (route_spec(m, s, true, shutting_down) == Route::Hub(HubRoute::Heartbeat))
            <==> (m == "POST"@ && s == seq!["hub"@, "heartbeat"@]),
        (route_spec(m, s, true, shutting_down) == Route::Hub(HubRoute::Dispatch))
            <==> (m == "POST"@ && s == seq!["hub"@, "dispatch"@]),
        (route_spec(m, s, true, shutting_down) == Route::Hub(HubRoute::Nodes))
            <==> (m == "GET"@ && s == seq!["hub"@, "nodes"@]),
        (route_spec(m, s, true, shutting_down) == Route::Hub(HubRoute::NodeRemove))
            <==> (m == "DELETE"@ && s.len() == 3 && s[0] == "hub"@ && s[1] == "nodes"@),
        (route_spec(m, s, true, shutting_down) == Route::Hub(HubRoute::NodeServe))
            <==> (m == "POST"@ && s.len() == 4 && s[0] == "hub"@ && s[1] == "nodes"@ && s[3] == "servers"@),
        (route_spec(m, s, true, shutting_down) == Route::Hub(HubRoute::NodeStopServer))
            <==> (m == "DELETE"@ && s.len() == 5 && s[0] == "hub"@ && s[1] == "nodes"@ && s[3] == "servers"@),
{
    reveal_strlit("GET");
    reveal_strlit("POST");
    reveal_strlit("DELETE");
    reveal_strlit("hub");
    reveal_strlit("v1");
    reveal_strlit("healthz");
    reveal_strlit("readyz");
    reveal_strlit("metrics");
    reveal_strlit("version");
    reveal_strlit("pairings");
    reveal_strlit("pair");
    reveal_strlit("register");
    reveal_strlit("heartbeat");
    reveal_strlit("dispatch");
    reveal_strlit("nodes");
    reveal_strlit("servers");
    assert("GET"@.len() == 3 && "POST"@.len() == 4 && "DELETE"@.len() == 6);
    assert("hub"@.len() == 3 && "v1"@.len() == 2 && "healthz"@.len() == 7 && "readyz"@.len() == 6);
    assert("metrics"@.len() == 7 && "version"@.len() == 7);
    assert("pair"@.len() == 4 && "nodes"@.len() == 5 && "heartbeat"@.len() == 9);
    assert("pairings"@.len() == 8 && "register"@.len() == 8 && "dispatch"@.len() == 8);
    assert("pairings"@[0] == 'p' && "register"@[0] == 'r' && "dispatch"@[0] == 'd');
    assert("GET"@ != "POST"@ && "GET"@ != "DELETE"@ && "POST"@ != "DELETE"@);
    assert("hub"@ != "v1"@ && "hub"@ != "healthz"@ && "hub"@ != "readyz"@);
    assert("hub"@ != "metrics"@ && "hub"@ != "version"@);
    assert("pairings"@ != "pair"@ && "pairings"@ != "register"@ && "pairings"@ != "heartbeat"@);
    assert("pairings"@ != "dispatch"@ && "pairings"@ != "nodes"@);
    assert("pair"@ != "register"@ && "pair"@ != "heartbeat"@ && "pair"@ != "dispatch"@ && "pair"@ != "nodes"@);
    assert("register"@ != "heartbeat"@ && "register"@ != "dispatch"@ && "register"@ != "nodes"@);
    assert("heartbeat"@ != "dispatch"@ && "heartbeat"@ != "nodes"@ && "dispatch"@ != "nodes"@);
    if s.len() == 2 {
        if s[0] == "hub"@ {
            if s[1] == "pairings"@ { assert(s =~= seq!["hub"@, "pairings"@]); }
            if s[1] == "pair"@ { assert(s =~= seq!["hub"@, "pair"@]); }
            if s[1] == "register"@ { assert(s =~= seq!["hub"@, "register"@]); }
            if s[1] == "heartbeat"@ { assert(s =~= seq!["hub"@, "heartbeat"@]); }
            if s[1] == "dispatch"@ { assert(s =~= seq!["hub"@, "dispatch"@]); }
            if s[1] == "nodes"@ { assert(s =~= seq!["hub"@, "nodes"@]); }
        }
    }
}

pub open spec fn drain_object_message() -> Seq<char> {
    "drain requires a JSON object"@
}

pub open spec fn drain_range_message() -> Seq<char> {
    "deadline_seconds must be an integer from 1 to 3600"@
}

/// The drain deadline a `POST /api/drain` body asks for, in seconds: 60 when
/// it names none, else an integer from 1 to 3600. `body` is the parsed body
/// (`None` when it is not JSON).
pub open spec fn drain_deadline_spec(body: Option<Json>) -> Result<u64, Seq<char>> {
    match body {
        Some(Json::Object(_)) => match member(body.unwrap(), "deadline_seconds"@) {
            None => Ok(60),
            Some(Json::Number(Some(n))) => if 1 <= n <= 3600 { Ok(n) } else { Err(drain_range_message()) },
            Some(_) => Err(drain_range_message()),
        },
        _ => Err(drain_object_message()),
    }
}

pub fn drain_deadline(body: Option<&Json>) -> (r: Result<u64, String>)
    ensures
        match (r, drain_deadline_spec(match body { Some(b) => Some(*b), None => None })) {
            (Ok(a), Ok(b)) => a == b,
            (Err(e), Err(m)) => e@ == m,
            _ => false,
        },
{
    match body {
        Some(b) => match b {
            Json::Object(_) => match b.get("deadline_seconds") {
                None => Ok(60),
                Some(Json::Number(Some(n))) => if 1 <= *n && *n <= 3600 {
                    Ok(*n)
                } else {
                    Err(String::from_str("deadline_seconds must be an integer from 1 to 3600"))
                },
                Some(_) => Err(String::from_str("deadline_seconds must be an integer from 1 to 3600")),
            },
            _ => Err(String::from_str("drain requires a JSON object")),
        },
        None => Err(String::from_str("drain requires a JSON object")),
    }
}

/// The label of a `POST /hub/pairings` body: its `label` string.
pub open spec fn pairing_label_spec(body: Option<Json>) -> Option<Seq<char>> {
    match body {
        Some(b) => match member(b, "label"@) {
            Some(Json::String(l)) => Some(l@),
            _ => None,
        },
        None => None,
    }
}

pub fn pairing_label(body: Option<&Json>) -> (r: Result<String, String>)
    ensures
        match pairing_label_spec(match body { Some(b) => Some(*b), None => None }) {
            Some(l) => r matches Ok(x) && x@ == l,
            None => r matches Err(e) && e@ == "pairing request needs a string label"@,
        },
{
    match body {
        Some(b) => match b.get("label") {
            Some(Json::String(l)) => Ok(l.clone()),
            _ => Err(String::from_str("pairing request needs a string label")),
        },
        None => Err(String::from_str("pairing request needs a string label")),
    }
}

/// The node a heartbeat body names: refused when the body is not JSON, or
/// names no node id.
pub open spec fn heartbeat_node_spec(body: Option<Json>) -> Result<Seq<char>, Seq<char>> {
    match body {
        None => Err("heartbeat body must be JSON"@),
        Some(b) => match member(b, "node_id"@) {
            Some(Json::String(id)) => Ok(id@),
            _ => Err("heartbeat needs a node_id"@),
        },
    }
}

pub fn heartbeat_node(body: Option<&Json>) -> (r: Result<String, String>)
    ensures
        match (r, heartbeat_node_spec(match body { Some(b) => Some(*b), None => None })) {
            (Ok(a), Ok(b)) => a@ == b,
            (Err(e), Err(m)) => e@ == m,
            _ => false,
        },
{
    match body {
        None => Err(String::from_str("heartbeat body must be JSON")),
        Some(b) => match b.get("node_id") {
            Some(Json::String(id)) => Ok(id.clone()),
            _ => Err(String::from_str("heartbeat needs a node_id")),
        },
    }
}

} // verus!
