//! The daemon's refusals before it serves anything: which binds, postures and
//! hub enrollments are allowed to start.
use vstd::prelude::*;
use crate::auth::Posture;
use crate::net::{is_loopback, is_loopback_spec, IpLiteral};
use crate::text::{all_ascii_hexdigits, char_is_hexdigit, chars_eq_str, chars_of, copy_range, is_ascii_hexdigit, push_str_chars, string_of};

verus! {

pub open spec fn starts_with_https(url: Seq<char>) -> bool {
    url.len() >= 8 && url.take(8) == "https://"@
}

fn has_https_prefix(url: &str) -> (r: bool)
    ensures
        r == starts_with_https(url@),
{
    let c = chars_of(url);
    if c.len() < 8 {
        return false;
    }
    let head = copy_range(&c, 0, 8);
    assert(head@ =~= c@.take(8));
    chars_eq_str(&head, "https://")
}

pub open spec fn insecure_hub_message(url: Seq<char>) -> Seq<char> {
    "refusing insecure hub URL '"@ + url
        + "': --hub-url carries privileged credentials and must use https://"@
}

pub open spec fn insecure_callback_message(url: Seq<char>) -> Seq<char> {
    "refusing insecure callback URL '"@ + url + "': --advertise must use https://"@
}

/// The hub URL carries the node's credentials, so it must be HTTPS.
pub fn require_https_hub_url(url: &str) -> (r: Result<(), String>)
    ensures
        match r {
            Ok(()) => starts_with_https(url@),
            Err(e) => !starts_with_https(url@) && e@ == insecure_hub_message(url@),
        },
{
    if has_https_prefix(url) {
        return Ok(());
    }
    let mut m = chars_of("refusing insecure hub URL '");
    push_str_chars(&mut m, url);
    push_str_chars(&mut m, "': --hub-url carries privileged credentials and must use https://");
    Err(string_of(&m))
}

/// The callback the hub dials carries the node's operator key: HTTPS only.
pub fn require_https_callback(url: &str) -> (r: Result<(), String>)
    ensures
        match r {
            Ok(()) => starts_with_https(url@),
            Err(e) => !starts_with_https(url@) && e@ == insecure_callback_message(url@),
        },
{
    if has_https_prefix(url) {
        return Ok(());
    }
    let mut m = chars_of("refusing insecure callback URL '");
    push_str_chars(&mut m, url);
    push_str_chars(&mut m, "': --advertise must use https://");
    Err(string_of(&m))
}

pub open spec fn open_bind_message(host: Seq<char>) -> Seq<char> {
    "refusing to bind "@ + host
        + " without an operator key (--console-key, or an operator entry in --keys-file). Bind to 127.0.0.1 for local administration."@
}

pub open spec fn tenant_without_operator_message() -> Seq<char> {
    "multi-tenant posture requires at least one operator key (--console-key or an operator entry in --keys-file), so tenants cannot manipulate the GPU."@
}

/// A routable control surface needs an operator credential, and so does the
/// multi-tenant posture. `host_ip` is the bind host parsed as an IP literal.
pub open spec fn bind_error(host: Seq<char>, host_ip: Option<IpLiteral>, operator_required: bool, posture: Posture) -> Option<Seq<char>> {
    if !is_loopback_spec(host, host_ip) && !operator_required {
        Some(open_bind_message(host))
    } else if posture == Posture::MultiTenant && !operator_required {
        Some(tenant_without_operator_message())
    } else {
        None
    }
}

pub fn check_bind(host: &str, host_ip: Option<IpLiteral>, operator_required: bool, posture: Posture) -> (r: Result<(), String>)
    ensures
        match r {
            Ok(()) => bind_error(host@, host_ip, operator_required, posture) is None,
            Err(e) => bind_error(host@, host_ip, operator_required, posture) == Some(e@),
        },
{
    if !is_loopback(host, host_ip) && !operator_required {
        let mut m = chars_of("refusing to bind ");
        push_str_chars(&mut m, host);
        push_str_chars(&mut m, " without an operator key (--console-key, or an operator entry in --keys-file). Bind to 127.0.0.1 for local administration.");
        return Err(string_of(&m));
    }
    let multi = match posture {
        Posture::MultiTenant => true,
        Posture::SelfHost => false,
    };
    if multi && !operator_required {
        return Err(String::from_str("multi-tenant posture requires at least one operator key (--console-key or an operator entry in --keys-file), so tenants cannot manipulate the GPU."));
    }
    Ok(())
}

pub open spec fn open_endpoint_message(host: Seq<char>) -> Seq<char> {
    "refusing to serve on "@ + host
        + " without an endpoint api key. Set serve_api_key in the daemon config, or bind the endpoint to 127.0.0.1."@
}

/// A model endpoint bound beyond loopback publishes the GPU, so it needs an
/// endpoint api key. `host_ip` is the host parsed as an IP literal.
pub fn check_endpoint_bind(host: &str, host_ip: Option<IpLiteral>, has_serve_key: bool) -> (r: Result<(), String>)
    ensures
        match r {
            Ok(()) => is_loopback_spec(host@, host_ip) || has_serve_key,
            Err(e) => !is_loopback_spec(host@, host_ip) && !has_serve_key && e@ == open_endpoint_message(host@),
        },
{
    if !is_loopback(host, host_ip) && !has_serve_key {
        let mut m = chars_of("refusing to serve on ");
        push_str_chars(&mut m, host);
        push_str_chars(&mut m, " without an endpoint api key. Set serve_api_key in the daemon config, or bind the endpoint to 127.0.0.1.");
        return Err(string_of(&m));
    }
    Ok(())
}

/// What a node joining a hub was given on the command line, with the facts
/// about the disk and the key ring that the checks read.
pub struct LinkRequest {
    pub hub_url: String,
    pub advertise: Option<String>,
    pub pairing_code: Option<String>,
    pub has_credential_file: bool,
    /// A credential file was named and already exists.
    pub credential_file_exists: bool,
    pub has_node_key: bool,
    pub has_farm_token: bool,
}

pub open spec fn missing_advertise_message() -> Seq<char> {
    "--hub-url requires --advertise https://node.example:PORT so hub callbacks do not expose the node operator key"@
}

pub open spec fn bad_code_message() -> Seq<char> {
    "--pairing-code must be exactly 64 hexadecimal characters"@
}

pub open spec fn code_without_file_message() -> Seq<char> {
    "--pairing-code requires --mesh-credential-file so the issued device identity survives restart"@
}

pub open spec fn code_over_credential_message() -> Seq<char> {
    "--pairing-code refuses to overwrite an existing mesh credential; omit the code to reconnect or remove the file intentionally before re-pairing"@
}

pub open spec fn code_without_key_message() -> Seq<char> {
    "paired nodes require an operator callback key (--console-key or operator keys-file entry)"@
}

pub open spec fn no_identity_message() -> Seq<char> {
    "--hub-url requires --pairing-code with --mesh-credential-file, an existing mesh credential file, or legacy --farm-token"@
}

/// The checks on a hub enrollment, in order: an HTTPS hub URL, an HTTPS
/// callback, a well-formed pairing code that has somewhere new to keep the
/// identity it earns and a callback key to hand over, and some identity to
/// join with at all. `Ok` carries the callback address.
pub open spec fn link_check_spec(req: LinkRequest) -> Result<Seq<char>, Seq<char>> {
    if !starts_with_https(req.hub_url@) {
        Err(insecure_hub_message(req.hub_url@))
    } else {
        match req.advertise {
            None => Err(missing_advertise_message()),
            Some(callback) => if !starts_with_https(callback@) {
                Err(insecure_callback_message(callback@))
            } else if req.pairing_code is Some && !(req.pairing_code->0@.len() == 64 && all_ascii_hexdigits(req.pairing_code->0@)) {
                Err(bad_code_message())
            } else if req.pairing_code is Some && !req.has_credential_file {
                Err(code_without_file_message())
            } else if req.pairing_code is Some && req.credential_file_exists {
                Err(code_over_credential_message())
            } else if req.pairing_code is Some && !req.has_node_key {
                Err(code_without_key_message())
            } else if req.pairing_code is None && !req.credential_file_exists && !req.has_farm_token {
                Err(no_identity_message())
            } else {
                Ok(callback@)
            },
        }
    }
}

fn all_hex(s: &[char]) -> (r: bool)
    ensures
        r == all_ascii_hexdigits(s@),
{
    let mut i: usize = 0;
    while i < s.len()
        invariant
            i <= s@.len(),
            forall|j: int| 0 <= j < i ==> is_ascii_hexdigit(#[trigger] s@[j]),
        decreases s.len() - i,
    {
        if !char_is_hexdigit(s[i]) {
            return false;
        }
        i += 1;
    }
    true
}

pub fn check_link(req: &LinkRequest) -> (r: Result<String, String>)
    ensures
        match (r, link_check_spec(*req)) {
            (Ok(c), Ok(s)) => c@ == s,
            (Err(e), Err(m)) => e@ == m,
            _ => false,
        },
{
    if let Err(e) = require_https_hub_url(req.hub_url.as_str()) {
        return Err(e);
    }
    let callback = match &req.advertise {
        None => return Err(String::from_str("--hub-url requires --advertise https://node.example:PORT so hub callbacks do not expose the node operator key")),
        Some(c) => c,
    };
    if let Err(e) = require_https_callback(callback.as_str()) {
        return Err(e);
    }
    match &req.pairing_code {
        Some(code) => {
            let c = chars_of(code.as_str());
            if !(c.len() == 64 && all_hex(&c)) {
                return Err(String::from_str("--pairing-code must be exactly 64 hexadecimal characters"));
            }
            if !req.has_credential_file {
                return Err(String::from_str("--pairing-code requires --mesh-credential-file so the issued device identity survives restart"));
            }
            if req.credential_file_exists {
                return Err(String::from_str("--pairing-code refuses to overwrite an existing mesh credential; omit the code to reconnect or remove the file intentionally before re-pairing"));
            }
            if !req.has_node_key {
                return Err(String::from_str("paired nodes require an operator callback key (--console-key or operator keys-file entry)"));
            }
        },
        None => {
            if !req.credential_file_exists && !req.has_farm_token {
                return Err(String::from_str("--hub-url requires --pairing-code with --mesh-credential-file, an existing mesh credential file, or legacy --farm-token"));
            }
        },
    }
    Ok(String::from_str(callback.as_str()))
}

} // verus!
