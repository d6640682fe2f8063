//! Who may reach which surface, and under which request-rate class. The
//! control surface (`/api`, hub administration) takes an operator credential;
//! inference (`/v1`) takes any credential; the host-only socket on a
//! self-host box counts as the operator.
use vstd::prelude::*;
use crate::auth::{first_role, has_role, KeyRing, Posture, Role};
use crate::text::{chars_eq_str, chars_of, copy_range, string_of, trim, trim_chars};

verus! {

/// A refusal: the HTTP status and the message.
#[derive(Debug, Clone, Copy)]
pub struct Denial {
    pub status: u16,
    pub message: &'static str,
}

pub open spec fn token_role(ring: KeyRing, token: Option<&str>) -> Option<Role> {
    match token {
        None => None,
        Some(t) => first_role(ring.view(), t@),
    }
}

/// The bearer token of an `Authorization` header value: what follows
/// `Bearer `, trimmed.
pub open spec fn bearer_spec(header: Option<Seq<char>>) -> Option<Seq<char>> {
    match header {
        Some(h) => if h.len() >= 7 && h.take(7) == "Bearer "@ {
            Some(trim(h.skip(7)))
        } else {
            None
        },
        None => None,
    }
}

pub fn bearer(header: Option<&str>) -> (r: Option<String>)
    ensures
        match r {
            Some(t) => bearer_spec(match header { Some(h) => Some(h@), None => None }) == Some(t@),
            None => bearer_spec(match header { Some(h) => Some(h@), None => None }) is None,
        },
{
    let h = match header {
        None => return None,
        Some(h) => h,
    };
    let c = chars_of(h);
    if c.len() < 7 {
        return None;
    }
    let prefix = copy_range(&c, 0, 7);
    assert(prefix@ =~= c@.take(7));
    if !chars_eq_str(&prefix, "Bearer ") {
        return None;
    }
    let rest = copy_range(&c, 7, c.len());
    assert(rest@ =~= c@.skip(7));
    Some(string_of(&trim_chars(&rest)))
}

/// Access to the inference gateway: open to the host socket on a self-host
/// box, open when inference is deliberately open and no consumer key exists,
/// otherwise any recognised credential.
pub open spec fn serve_denial(from_unix: bool, posture: Posture, open_inference: bool, ring: KeyRing, token: Option<&str>) -> bool {
    !(from_unix && posture == Posture::SelfHost) && !(open_inference && !has_role(ring.view(), Role::Consumer))
        && token_role(ring, token) is None
}

pub fn check_serve_auth(from_unix: bool, posture: Posture, open_inference: bool, ring: &KeyRing, token: Option<&str>) -> (r: Option<Denial>)
    ensures
        match r {
            None => !serve_denial(from_unix, posture, open_inference, *ring, token),
            Some(d) => serve_denial(from_unix, posture, open_inference, *ring, token) && d.status == 401 && d.message@ == "missing or invalid api key"@,
        },
{
    if from_unix && posture.allows_local_harness() {
        return None;
    }
    if open_inference && !ring.requires_consumer() {
        return None;
    }
    if ring.is_consumer_or_better(token) {
        None
    } else {
        Some(Denial { status: 401, message: "missing or invalid api key" })
    }
}

/// Access to engine and capability discovery: open to the host socket on a
/// self-host box and on a keyless daemon, otherwise any credential.
pub open spec fn engines_denial(from_unix: bool, posture: Posture, ring: KeyRing, token: Option<&str>) -> bool {
    !(from_unix && posture == Posture::SelfHost) && (has_role(ring.view(), Role::Operator) || has_role(ring.view(), Role::Consumer))
        && token_role(ring, token) is None
}

pub fn check_engines_auth(from_unix: bool, posture: Posture, ring: &KeyRing, token: Option<&str>) -> (r: Option<Denial>)
    ensures
        match r {
            None => !engines_denial(from_unix, posture, *ring, token),
            Some(d) => engines_denial(from_unix, posture, *ring, token) && d.status == 401 && d.message@ == "missing or invalid api key"@,
        },
{
    if from_unix && posture.allows_local_harness() {
        return None;
    }
    if !ring.requires_operator() && !ring.requires_consumer() {
        return None;
    }
    if ring.is_consumer_or_better(token) {
        None
    } else {
        Some(Denial { status: 401, message: "missing or invalid api key" })
    }
}

/// Whether a request may see operator-only capacity facts: the local harness
/// on a self-host box, an operator credential, or a box with no credentials
/// configured at all.
pub open spec fn operator_view_spec(from_unix: bool, posture: Posture, ring: KeyRing, token: Option<&str>) -> bool {
    (from_unix && posture == Posture::SelfHost)
        || token_role(ring, token) == Some(Role::Operator)
        || (!has_role(ring.view(), Role::Operator) && !has_role(ring.view(), Role::Consumer))
}

pub fn operator_view(from_unix: bool, posture: Posture, ring: &KeyRing, token: Option<&str>) -> (r: bool)
    ensures
        r == operator_view_spec(from_unix, posture, *ring, token),
{
    (from_unix && posture.allows_local_harness()) || ring.is_operator(token)
        || (!ring.requires_operator() && !ring.requires_consumer())
}

/// Access to the control surface: open to the host socket on a self-host box
/// and when no operator key exists; otherwise only an operator credential.
pub open spec fn operator_denial(from_unix: bool, posture: Posture, ring: KeyRing, token: Option<&str>) -> bool {
    !(from_unix && posture == Posture::SelfHost) && has_role(ring.view(), Role::Operator)
        && token_role(ring, token) != Some(Role::Operator)
}

pub fn check_auth(from_unix: bool, posture: Posture, ring: &KeyRing, token: Option<&str>) -> (r: Option<Denial>)
    ensures
        match r {
            None => !operator_denial(from_unix, posture, *ring, token),
            Some(d) => operator_denial(from_unix, posture, *ring, token) && d.status == 401 && d.message@ == "operator credential required"@,
        },
{
    if from_unix && posture.allows_local_harness() {
        return None;
    }
    if !ring.requires_operator() {
        return None;
    }
    if ring.is_operator(token) {
        None
    } else {
        Some(Denial { status: 401, message: "operator credential required" })
    }
}

/// Access for a node enrolling with the shared farm token: refused outright
/// when the hub has none; otherwise only the exact token.
pub fn check_farm_auth(farm_token: Option<&str>, presented: Option<&str>) -> (r: Option<Denial>)
    ensures
        match farm_token {
            None => r matches Some(d) && d.status == 403 && d.message@ == "hub is not accepting registrations (no farm token configured)"@,
            Some(k) => if presented matches Some(p) && p@ == k@ {
                r is None
            } else {
                r matches Some(d) && d.status == 401 && d.message@ == "missing or invalid farm token"@
            },
        },
{
    let key = match farm_token {
        None => return Some(Denial { status: 403, message: "hub is not accepting registrations (no farm token configured)" }),
        Some(k) => k,
    };
    if key_matches(presented, key) {
        None
    } else {
        Some(Denial { status: 401, message: "missing or invalid farm token" })
    }
}

/// Constant-time comparison of a presented credential with the configured
/// one; only the length is observable.
pub fn key_matches(presented: Option<&str>, key: &str) -> (r: bool)
    ensures
        r == (presented matches Some(p) && p@ == key@),
{
    match presented {
        None => false,
        Some(p) => KeyRing::ct_eq(p, key),
    }
}

/// Law of access: on a box with an operator key, a credential the ring holds
/// only as a consumer key never reaches the control surface from the
/// network, while it does reach inference; an operator credential reaches
/// both.
pub proof fn law_consumers_cannot_operate(posture: Posture, open_inference: bool, ring: KeyRing, token: &str)
    requires
        has_role(ring.view(), Role::Operator),
        forall|i: int| 0 <= i < ring.view().len() && (#[trigger] ring.view()[i]).0 == token@ ==> ring.view()[i].1 == Role::Consumer,
        exists|i: int| 0 <= i < ring.view().len() && (#[trigger] ring.view()[i]).0 == token@,
    ensures
        operator_denial(false, posture, ring, Some(token)),
        !serve_denial(false, posture, open_inference, ring, Some(token)),
{
    crate::auth::law_roles_are_nested(ring.view(), token@);
    let i = choose|i: int| 0 <= i < ring.view().len() && (#[trigger] ring.view()[i]).0 == token@;
    crate::auth::lemma_first_role_found(ring.view(), i);
}

/// The request classes and their per-window limits.
#[derive(Debug, Clone, Copy, PartialEq, Eq, Structural)]
pub enum RateClass {
    Pair,
    Auth,
    Inference,
    Control,
    Public,
}

pub open spec fn class_spec(segs: Seq<Seq<char>>, authenticated: bool, open_inference: bool, requires_consumer: bool, requires_operator: bool) -> RateClass {
    let first = if segs.len() > 0 { Some(segs[0]) } else { None };
    let pairing = segs == seq!["hub"@, "pair"@];
    let protected = first == Some("api"@) || first == Some("hub"@) || first == Some("v1"@);
    let intentionally_open = (first == Some("v1"@) && open_inference && !requires_consumer)
        || (first == Some("api"@) && !requires_operator);
    if pairing {
        RateClass::Pair
    } else if protected && !authenticated && !intentionally_open {
        RateClass::Auth
    } else if first == Some("v1"@) {
        RateClass::Inference
    } else if protected {
        RateClass::Control
    } else {
        RateClass::Public
    }
}

pub open spec fn class_name(c: RateClass) -> Seq<char> {
    match c {
        RateClass::Pair => "pair"@,
        RateClass::Auth => "auth"@,
        RateClass::Inference => "inference"@,
        RateClass::Control => "control"@,
        RateClass::Public => "public"@,
    }
}

pub open spec fn class_limit(c: RateClass) -> u32 {
    match c {
        RateClass::Pair => crate::rate_limit::PAIRING_REQUESTS_PER_WINDOW,
        RateClass::Auth => crate::rate_limit::INVALID_AUTH_REQUESTS_PER_WINDOW,
        RateClass::Inference => crate::rate_limit::INFERENCE_REQUESTS_PER_WINDOW,
        RateClass::Control => crate::rate_limit::CONTROL_REQUESTS_PER_WINDOW,
        RateClass::Public => crate::rate_limit::PUBLIC_REQUESTS_PER_WINDOW,
    }
}

pub open spec fn segs_view(v: Seq<String>) -> Seq<Seq<char>> {
    v.map_values(|s: String| s@)
}

fn first_segment_is(segs: &Vec<String>, lit: &str) -> (b: bool)
    ensures
        b == (segs_view(segs@).len() > 0 && segs_view(segs@)[0] == lit@),
{
    if segs.len() > 0 {
        let c = chars_of(segs[0].as_str());
        chars_eq_str(&c, lit)
    } else {
        false
    }
}

/// The rate class of a request with these path segments: pairing,
/// unauthenticated access to a protected surface, inference, control, or the
/// public pages.
pub fn rate_class(segs: &Vec<String>, authenticated: bool, open_inference: bool, requires_consumer: bool, requires_operator: bool) -> (r: RateClass)
    ensures
        r == class_spec(segs_view(segs@), authenticated, open_inference, requires_consumer, requires_operator),
{
    let ghost sv = segs_view(segs@);
    let n = segs.len();
    let pairing = if n == 2 {
        let a = chars_of(segs[0].as_str());
        let b = chars_of(segs[1].as_str());
        let p = chars_eq_str(&a, "hub") && chars_eq_str(&b, "pair");
        proof {
            if sv == seq!["hub"@, "pair"@] {
                assert(sv[0] == segs@[0]@ && sv[1] == segs@[1]@);
            }
            if p {
                assert(sv =~= seq!["hub"@, "pair"@]);
            }
        }
        p
    } else {
        proof {
            if sv == seq!["hub"@, "pair"@] {
                assert(sv.len() == n);
            }
        }
        false
    };
    let api = first_segment_is(segs, "api");
    let hub = first_segment_is(segs, "hub");
    let v1 = first_segment_is(segs, "v1");
    let protected = api || hub || v1;
    let intentionally_open = (v1 && open_inference && !requires_consumer) || (api && !requires_operator);
    proof {
        let first = if sv.len() > 0 { Some(sv[0]) } else { None::<Seq<char>> };
        assert(api == (first == Some("api"@)));
        assert(hub == (first == Some("hub"@)));
        assert(v1 == (first == Some("v1"@)));
    }
    if pairing {
        RateClass::Pair
    } else if protected && !authenticated && !intentionally_open {
        RateClass::Auth
    } else if v1 {
        RateClass::Inference
    } else if protected {
        RateClass::Control
    } else {
        RateClass::Public
    }
}

/// The limiter key and per-window limit of a request class.
pub fn class_key_and_limit(client: &str, class: RateClass) -> (r: (String, u32))
    ensures
        r.0@ == client@ + ":"@ + class_name(class),
        r.1 == class_limit(class),
{
    let mut v = chars_of(client);
    crate::text::push_str_chars(&mut v, ":");
    let (name, limit) = match class {
        RateClass::Pair => ("pair", crate::rate_limit::PAIRING_REQUESTS_PER_WINDOW),
        RateClass::Auth => ("auth", crate::rate_limit::INVALID_AUTH_REQUESTS_PER_WINDOW),
        RateClass::Inference => ("inference", crate::rate_limit::INFERENCE_REQUESTS_PER_WINDOW),
        RateClass::Control => ("control", crate::rate_limit::CONTROL_REQUESTS_PER_WINDOW),
        RateClass::Public => ("public", crate::rate_limit::PUBLIC_REQUESTS_PER_WINDOW),
    };
    crate::text::push_str_chars(&mut v, name);
    (string_of(&v), limit)
}

} // verus!
