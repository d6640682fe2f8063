//! The console's self-signed certificate: the names it is valid for, minting
//! it, and the fingerprint an operator compares against the browser's
//! warning (trust on first use).
use vstd::prelude::*;
use crate::crypto::{sha256, sha256_digest};
use crate::text::{chars_eq, chars_eq_str, chars_of, is_ascii_alphanumeric, push_str_chars, string_of, trim, trim_chars};

verus! {

/// The upper-case hex digit for `n < 16`.
pub open spec fn upper_hex_digit(n: nat) -> char {
    if n < 10 {
        ((n + 48) as u32) as char
    } else {
        ((n + 55) as u32) as char
    }
}

/// Bytes as upper-case hex pairs joined by `:`, as
/// `openssl x509 -fingerprint -sha256` prints a digest.
pub open spec fn colon_hex(b: Seq<u8>) -> Seq<char>
    decreases b.len(),
{
    if b.len() == 0 {
        Seq::empty()
    } else {
        let pair = seq![upper_hex_digit((b.last() / 16) as nat), upper_hex_digit((b.last() % 16) as nat)];
        if b.len() == 1 {
            pair
        } else {
            colon_hex(b.drop_last()) + seq![':'] + pair
        }
    }
}

fn upper_hex_exec(n: u8) -> (c: char)
    requires
        n < 16,
    ensures
        c == upper_hex_digit(n as nat),
{
    if n < 10 {
        (n + 48) as char
    } else {
        (n + 55) as char
    }
}

/// The SHA-256 fingerprint of a DER certificate.
pub fn fingerprint(der: &[u8]) -> (r: String)
    ensures
        r@ == colon_hex(sha256(der@)),
{
    let d = sha256_digest(der);
    let mut v: Vec<char> = Vec::new();
    let mut i: usize = 0;
    while i < 32
        invariant
            i <= 32,
            d@.len() == 32,
            v@ == colon_hex(d@.take(i as int)),
        decreases 32 - i,
    {
        let b = d[i];
        if i > 0 {
            v.push(':');
        }
        v.push(upper_hex_exec(b / 16));
        v.push(upper_hex_exec(b % 16));
        assert(d@.take(i + 1).drop_last() =~= d@.take(i as int));
        assert(v@ =~= colon_hex(d@.take(i + 1)));
        i += 1;
    }
    assert(d@.take(32) =~= d@);
    string_of(&v)
}

/// A host name fit to certify: not empty, ASCII letters, digits and `-`.
pub open spec fn plain_host(h: Seq<char>) -> bool {
    h.len() > 0 && forall|i: int| 0 <= i < h.len() ==> is_ascii_alphanumeric(#[trigger] h[i]) || h[i] == '-'
}

/// The names the certificate covers: `cameo.local` (what mDNS advertises),
/// `localhost` and `127.0.0.1`; the machine's host name and `<host>.local`
/// when `/etc/hostname` holds a plain one; and the bind address unless it is
/// a wildcard or already listed.
pub open spec fn subject_names_spec(bind_host: Seq<char>, hostname_file: Option<Seq<char>>) -> Seq<Seq<char>> {
    let base = seq!["cameo.local"@, "localhost"@, "127.0.0.1"@];
    let names = match hostname_file {
        Some(f) => if plain_host(trim(f)) { base + seq![trim(f), trim(f) + ".local"@] } else { base },
        None => base,
    };
    let wildcard = bind_host == "0.0.0.0"@ || bind_host == "::"@ || bind_host.len() == 0;
    if !wildcard && !names.contains(bind_host) {
        names.push(bind_host)
    } else {
        names
    }
}

fn plain_host_exec(h: &[char]) -> (r: bool)
    ensures
        r == plain_host(h@),
{
    if h.len() == 0 {
        return false;
    }
    let mut i: usize = 0;
    while i < h.len()
        invariant
            i <= h@.len(),
            forall|k: int| 0 <= k < i ==> is_ascii_alphanumeric(#[trigger] h@[k]) || h@[k] == '-',
        decreases h.len() - i,
    {
        let c = h[i];
        if !(('0' <= c && c <= '9') || ('a' <= c && c <= 'z') || ('A' <= c && c <= 'Z') || c == '-') {
            return false;
        }
        i += 1;
    }
    true
}

fn listed(names: &Vec<String>, s: &[char]) -> (r: bool)
    ensures
        r == names@.map_values(|x: String| x@).contains(s@),
{
    let ghost v = names@.map_values(|x: String| x@);
    let mut i: usize = 0;
    while i < names.len()
        invariant
            i <= names@.len(),
            v == names@.map_values(|x: String| x@),
            forall|k: int| 0 <= k < i ==> v[k] != s@,
        decreases names.len() - i,
    {
        let c = chars_of(names[i].as_str());
        if chars_eq(&c, s) {
            assert(v[i as int] == s@);
            return true;
        }
        i += 1;
    }
    false
}

/// See [`subject_names_spec`]; `hostname_file` is what `/etc/hostname` holds.
pub fn subject_names(bind_host: &str, hostname_file: Option<&str>) -> (r: Vec<String>)
    ensures
        r@.map_values(|x: String| x@) == subject_names_spec(bind_host@, match hostname_file { Some(f) => Some(f@), None => None }),
{
    let mut names: Vec<String> = Vec::new();
    names.push(String::from_str("cameo.local"));
    names.push(String::from_str("localhost"));
    names.push(String::from_str("127.0.0.1"));
    assert(names@.map_values(|x: String| x@) =~= seq!["cameo.local"@, "localhost"@, "127.0.0.1"@]);
    match hostname_file {
        Some(f) => {
            let t = trim_chars(&chars_of(f));
            if plain_host_exec(&t) {
                let ghost before = names@;
                names.push(string_of(&t));
                let mut l = t;
                push_str_chars(&mut l, ".local");
                names.push(string_of(&l));
                assert(names@.map_values(|x: String| x@) =~= seq!["cameo.local"@, "localhost"@, "127.0.0.1"@]
                    + seq![trim(f@), trim(f@) + ".local"@]);
            }
        },
        None => {},
    }
    let b = chars_of(bind_host);
    let wildcard = chars_eq_str(&b, "0.0.0.0") || chars_eq_str(&b, "::") || b.len() == 0;
    if !wildcard && !listed(&names, &b) {
        let ghost before = names@;
        names.push(String::from_str(bind_host));
        assert(names@.map_values(|x: String| x@) =~= before.map_values(|x: String| x@).push(bind_host@));
    }
    names
}

/// A self-signed certificate and its private key, both PEM, valid for
/// `names` (`rcgen::generate_simple_self_signed`, with a freshly generated
/// key, then `Certificate::pem` and `KeyPair::serialize_pem`). The key is
/// random, so nothing is promised of the text.
#[verifier::external_body]
fn generate_self_signed(names: Vec<String>) -> Result<(String, String), String> {
    match rcgen::generate_simple_self_signed(names) {
        Ok(certified) => Ok((certified.cert.pem(), certified.key_pair.serialize_pem())),
        Err(error) => Err(format!("generating a self-signed certificate: {error}")),
    }
}

/// Mints the console certificate for a bind address: (certificate PEM, key
/// PEM), valid for the names [`subject_names`] lists.
pub fn mint_certificate(bind_host: &str, hostname_file: Option<&str>) -> Result<(String, String), String> {
    let names = subject_names(bind_host, hostname_file);
    generate_self_signed(names)
}

} // verus!
