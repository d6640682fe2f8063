//! Cameo Link, the node side of a mesh: what the agent does first (run with a
//! saved identity, redeem a pairing code, or take the legacy token path), how
//! it reads the hub's answers, and which stored identities it will use.
//! Requests, sleeps and file access are the caller's; the decisions are here.
use vstd::prelude::*;
use vstd::utf8::encode_utf8;
use crate::json::{member, Json};
use crate::net::trim_slashes;
use crate::text::{all_ascii_hexdigits, char_is_hexdigit, chars_of, is_ascii_hexdigit, push_str_chars, string_of, trim, trim_chars};

verus! {

/// Seconds between heartbeats: well under the hub's online window.
pub const HEARTBEAT_SECS: u64 = 15;

/// How the node was told to find the hub and describe itself back to it.
pub struct HubConfig {
    /// The hub's HTTPS base URL.
    pub hub_url: String,
    /// The legacy shared enrollment secret.
    pub farm_token: Option<String>,
    /// A single-use code for first enrollment; never persisted.
    pub pairing_code: Option<String>,
    /// Where the issued device identity is kept.
    pub credential_file: Option<String>,
    pub node_name: String,
    /// HTTPS base URL the hub calls back to reach this node's `/api`.
    pub callback_address: String,
    /// This node's operator key, handed to the hub for callbacks.
    pub node_key: Option<String>,
}

/// The members of an object, in order; nothing for any other value.
pub open spec fn object_entries(v: Json) -> Seq<(String, Json)> {
    match v {
        Json::Object(m) => m@,
        _ => Seq::empty(),
    }
}

/// The `POST /hub/register` body: the node's name, callback address and key
/// (`null` when it runs keyless), the agent's version, and its current
/// self-description (`null` when it has none), in that order.
pub fn registration_json(cfg: &HubConfig, version: &str, description: Option<Json>) -> (r: Json)
    ensures
        ({
            let m = object_entries(r);
            &&& r is Object
            &&& m.len() == 5
            &&& m[0].0@ == "name"@ && m[0].1 == Json::String(cfg.node_name)
            &&& m[1].0@ == "address"@ && m[1].1 == Json::String(cfg.callback_address)
            &&& m[2].0@ == "key"@ && m[2].1 == (match cfg.node_key {
                Some(k) => Json::String(k),
                None => Json::Null,
            })
            &&& m[3].0@ == "cameo_version"@ && (m[3].1 matches Json::String(v) && v@ == version@)
            &&& m[4].0@ == "node"@ && m[4].1 == (match description {
                Some(d) => d,
                None => Json::Null,
            })
        }),
{
    let key = match &cfg.node_key {
        Some(k) => Json::String(k.clone()),
        None => Json::Null,
    };
    let node = match description {
        Some(d) => d,
        None => Json::Null,
    };
    let mut m: Vec<(String, Json)> = Vec::new();
    m.push((String::from_str("name"), Json::String(cfg.node_name.clone())));
    m.push((String::from_str("address"), Json::String(cfg.callback_address.clone())));
    m.push((String::from_str("key"), key));
    m.push((String::from_str("cameo_version"), Json::String(String::from_str(version))));
    m.push((String::from_str("node"), node));
    Json::Object(m)
}

/// The `POST /hub/heartbeat` body: which node, and its refreshed
/// self-description (`null` when it has none).
pub fn heartbeat_json(node_id: &str, description: Option<Json>) -> (r: Json)
    ensures
        ({
            let m = object_entries(r);
            &&& r is Object
            &&& m.len() == 2
            &&& m[0].0@ == "node_id"@ && (m[0].1 matches Json::String(v) && v@ == node_id@)
            &&& m[1].0@ == "node"@ && m[1].1 == (match description {
                Some(d) => d,
                None => Json::Null,
            })
        }),
{
    let node = match description {
        Some(d) => d,
        None => Json::Null,
    };
    let mut m: Vec<(String, Json)> = Vec::new();
    m.push((String::from_str("node_id"), Json::String(String::from_str(node_id))));
    m.push((String::from_str("node"), node));
    Json::Object(m)
}

/// The `POST /hub/pair` body: the one-time code and the registration.
pub fn pairing_json(code: &str, registration: Json) -> (r: Json)
    ensures
        ({
            let m = object_entries(r);
            &&& r is Object
            &&& m.len() == 2
            &&& m[0].0@ == "code"@ && (m[0].1 matches Json::String(v) && v@ == code@)
            &&& m[1].0@ == "registration"@ && m[1].1 == registration
        }),
{
    let mut m: Vec<(String, Json)> = Vec::new();
    m.push((String::from_str("code"), Json::String(String::from_str(code))));
    m.push((String::from_str("registration"), registration));
    Json::Object(m)
}

/// `url` without its trailing slashes, so joining a path never doubles one.
pub fn base(url: &str) -> (r: String)
    ensures
        r@ == trim_slashes(url@),
{
    let c = chars_of(url);
    let mut e = c.len();
    assert(c@.take(e as int) =~= c@);
    while e > 0 && c[e - 1] == '/'
        invariant
            e <= c@.len(),
            trim_slashes(url@) == trim_slashes(c@.take(e as int)),
            c@ == url@,
        decreases e,
    {
        assert(c@.take(e as int).drop_last() =~= c@.take(e - 1));
        e -= 1;
    }
    let mut v: Vec<char> = Vec::new();
    let mut i: usize = 0;
    while i < e
        invariant
            i <= e <= c@.len(),
            v@ == c@.take(i as int),
        decreases e - i,
    {
        v.push(c[i]);
        assert(c@.take(i + 1) =~= c@.take(i as int).push(c@[i as int]));
        i += 1;
    }
    string_of(&v)
}

/// The URL of `path` on the hub.
pub fn hub_endpoint(hub_url: &str, path: &str) -> (r: String)
    ensures
        r@ == trim_slashes(hub_url@) + "/"@ + path@,
{
    let b = base(hub_url);
    let mut v = chars_of(b.as_str());
    push_str_chars(&mut v, "/");
    push_str_chars(&mut v, path);
    string_of(&v)
}

/// The identity a paired node keeps: its id and its device secret.
pub struct DeviceCredential {
    pub node_id: String,
    pub device_credential: String,
}

pub open spec fn invalid_node_id_message() -> Seq<char> {
    "stored device credential has an invalid node_id"@
}

pub open spec fn invalid_secret_message() -> Seq<char> {
    "stored device credential has an invalid secret"@
}

/// A stored identity is usable when its id is not blank and at most 256
/// bytes long, and its secret is 64 hexadecimal digits.
pub open spec fn credential_error(c: DeviceCredential) -> Option<Seq<char>> {
    if trim(c.node_id@).len() == 0 || encode_utf8(c.node_id@).len() > 256 {
        Some(invalid_node_id_message())
    } else if !(c.device_credential@.len() == 64 && all_ascii_hexdigits(c.device_credential@)) {
        Some(invalid_secret_message())
    } else {
        None
    }
}

fn all_hex(s: &[char]) -> (r: bool)
    ensures
        r == all_ascii_hexdigits(s@),
{
    let mut i: usize = 0;
    while i < s.len()
        invariant
            i <= s@.len(),
            forall|j: int| 0 <= j < i ==> is_ascii_hexdigit(#[trigger] s@[j]),
        decreases s.len() - i,
    {
        if !char_is_hexdigit(s[i]) {
            return false;
        }
        i += 1;
    }
    true
}

pub fn validate_device_credential(credential: &DeviceCredential) -> (r: Result<(), String>)
    ensures
        match r {
            Ok(()) => credential_error(*credential) is None,
            Err(e) => credential_error(*credential) == Some(e@),
        },
{
    let id = chars_of(credential.node_id.as_str());
    let t = trim_chars(&id);
    if t.len() == 0 || credential.node_id.as_str().as_bytes().len() > 256 {
        return Err(String::from_str("stored device credential has an invalid node_id"));
    }
    let s = chars_of(credential.device_credential.as_str());
    if !(s.len() == 64 && all_hex(&s)) {
        return Err(String::from_str("stored device credential has an invalid secret"));
    }
    Ok(())
}

/// What the agent does on start.
#[derive(Debug, PartialEq, Eq)]
pub enum FirstStep {
    /// Heartbeat with the saved identity.
    RunPaired,
    /// Redeem the pairing code and save the identity it earns.
    Pair,
    /// Take the legacy shared-token path: register, then heartbeat.
    Register,
    /// Give up, with the reason to log.
    Stop(String),
}

/// `loaded` is what became of loading the saved identity: `None` when no
/// credential file is configured, else whether one was found, or why it
/// could not be read. A saved identity wins; an unreadable one stops the agent rather than
/// falling back to a weaker path; a pairing code needs a place to keep what
/// it earns; otherwise the legacy path.
pub fn first_step(loaded: Option<Result<bool, String>>, has_pairing_code: bool, has_credential_file: bool) -> (r: FirstStep)
    ensures
        match loaded {
            Some(Ok(true)) => r == FirstStep::RunPaired,
            Some(Err(e)) => r matches FirstStep::Stop(m) && m@ == "cannot load paired credential: "@ + e@,
            _ => if has_pairing_code {
                if !has_credential_file {
                    r matches FirstStep::Stop(m) && m@ == "pairing code requires a credential file"@
                } else {
                    r == FirstStep::Pair
                }
            } else {
                r == FirstStep::Register
            },
        },
{
    match loaded {
        Some(Ok(true)) => FirstStep::RunPaired,
        Some(Err(e)) => {
            let mut m = chars_of("cannot load paired credential: ");
            push_str_chars(&mut m, e.as_str());
            FirstStep::Stop(string_of(&m))
        },
        _ => if has_pairing_code {
            if !has_credential_file {
                FirstStep::Stop(String::from_str("pairing code requires a credential file"))
            } else {
                FirstStep::Pair
            }
        } else {
            FirstStep::Register
        },
    }
}

/// The `node_id` a registration answer assigns (nothing for an unreadable
/// answer or one without a string id).
pub open spec fn node_id_spec(response: Option<Json>) -> Option<Seq<char>> {
    match response {
        Some(v) => match member(v, "node_id"@) {
            Some(Json::String(s)) => Some(s@),
            _ => None,
        },
        None => None,
    }
}

pub fn node_id_from_response(response: Option<&Json>) -> (r: Option<String>)
    ensures
        match node_id_spec(match response { Some(v) => Some(*v), None => None }) {
            Some(id) => r matches Some(s) && s@ == id,
            None => r is None,
        },
{
    match response {
        Some(v) => match v.get("node_id") {
            Some(Json::String(s)) => Some(String::from_str(s.as_str())),
            _ => None,
        },
        None => None,
    }
}

/// Whether a heartbeat answer says the hub still knows this node; an answer
/// without a readable `known` flag counts as `unreadable`.
pub open spec fn known_spec(response: Option<Json>, unreadable: bool) -> bool {
    match response {
        Some(v) => match member(v, "known"@) {
            Some(Json::Bool(b)) => b,
            _ => unreadable,
        },
        None => unreadable,
    }
}

pub fn heartbeat_known(response: Option<&Json>, unreadable: bool) -> (r: bool)
    ensures
        r == known_spec(match response { Some(v) => Some(*v), None => None }, unreadable),
{
    match response {
        Some(v) => match v.get("known") {
            Some(Json::Bool(b)) => *b,
            _ => unreadable,
        },
        None => unreadable,
    }
}

/// What the legacy agent does after a heartbeat: keep beating while the hub
/// knows the node (an unreadable answer is taken as known), and register
/// afresh when it forgets the node or the request fails.
pub fn legacy_keeps_node(response: Result<Option<&Json>, ()>) -> (r: bool)
    ensures
        r == match response {
            Ok(v) => known_spec(match v { Some(j) => Some(*j), None => None }, true),
            Err(()) => false,
        },
{
    match response {
        Ok(v) => heartbeat_known(v, true),
        Err(()) => false,
    }
}

} // verus!
