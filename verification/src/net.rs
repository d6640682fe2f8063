//! Addresses: hosts of authorities, callback URLs, and which literal IP
//! addresses the hub may dial.
use vstd::prelude::*;
use crate::text::{chars_eq_str, chars_of, copy_range, index_of_char, lemma_index_of_char, lower_chars, lower_seq, string_of, find_char};

verus! {

/// A literal IP address, as the standard library's `IpAddr` parser reads
/// one. Parsing lives with the caller (the network module of `std` is not
/// used here); these are the facts the checks look at.
#[derive(Debug, Clone, Copy, PartialEq, Eq, Structural)]
pub enum IpLiteral {
    V4(u8, u8, u8, u8),
    /// The first 16-bit segment, whether all eight segments are zero, and
    /// whether the address is `::1`.
    V6 { first_segment: u16, unspecified: bool, loopback: bool },
}

/// Loopback as `IpAddr::is_loopback` documents it: 127.0.0.0/8, or `::1`.
pub open spec fn ip_is_loopback(ip: IpLiteral) -> bool {
    match ip {
        IpLiteral::V4(a, _, _, _) => a == 127,
        IpLiteral::V6 { loopback, .. } => loopback,
    }
}

/// Whether an address reaches this machine only: `localhost` (any case) or
/// a loopback literal; `ip` is the host parsed as an IP literal, if it is one.
pub open spec fn is_loopback_spec(host: Seq<char>, ip: Option<IpLiteral>) -> bool {
    lower_seq(host) == "localhost"@ || (ip matches Some(ip) && ip_is_loopback(ip))
}

pub fn is_loopback(host: &str, ip: Option<IpLiteral>) -> (r: bool)
    ensures
        r == is_loopback_spec(host@, ip),
{
    let c = chars_of(host);
    let l = lower_chars(&c);
    if chars_eq_str(&l, "localhost") {
        return true;
    }
    match ip {
        Some(IpLiteral::V4(a, _, _, _)) => a == 127,
        Some(IpLiteral::V6 { loopback, .. }) => loopback,
        None => false,
    }
}

/// The last index holding `c`.
pub open spec fn last_index_of(s: Seq<char>, c: char) -> Option<int>
    decreases s.len(),
{
    if s.len() == 0 {
        None
    } else if s.last() == c {
        Some(s.len() - 1)
    } else {
        last_index_of(s.drop_last(), c)
    }
}

/// The host part of a `host:port` (or `[v6]:port`) authority: inside the
/// brackets up to the first `]`, else everything before the last `:`, else
/// all of it.
pub open spec fn host_of_spec(a: Seq<char>) -> Seq<char> {
    if a.len() > 0 && a[0] == '[' {
        let rest = a.drop_first();
        match index_of_char(rest, ']', 0) {
            Some(j) => rest.take(j),
            None => rest,
        }
    } else {
        match last_index_of(a, ':') {
            Some(j) => a.take(j),
            None => a,
        }
    }
}

proof fn lemma_last_index_of(s: Seq<char>, c: char)
    ensures
        match last_index_of(s, c) {
            Some(j) => 0 <= j < s.len() && s[j] == c,
            None => true,
        },
    decreases s.len(),
{
    if s.len() > 0 && s.last() != c {
        lemma_last_index_of(s.drop_last(), c);
    }
}

pub fn host_of(address: &str) -> (r: String)
    ensures
        r@ == host_of_spec(address@),
{
    let a = chars_of(address);
    let n = a.len();
    if n > 0 && a[0] == '[' {
        let rest = copy_range(&a, 1, n);
        assert(rest@ =~= a@.drop_first());
        proof {
            lemma_index_of_char(rest@, ']', 0);
        }
        return match find_char(&rest, ']') {
            Some(j) => string_of(&copy_range(&rest, 0, j)),
            None => string_of(&rest),
        };
    }
    let mut i = n;
    assert(a@.take(n as int) =~= a@);
    while i > 0 && a[i - 1] != ':'
        invariant
            i <= n,
            n == a@.len(),
            last_index_of(a@, ':') == last_index_of(a@.take(i as int), ':'),
        decreases i,
    {
        assert(a@.take(i as int).drop_last() =~= a@.take(i - 1));
        i -= 1;
    }
    assert(a@.take(n as int) =~= a@);
    if i == 0 {
        assert(last_index_of(a@.take(0), ':') is None);
        string_of(&a)
    } else {
        assert(a@.take(i as int).last() == ':');
        string_of(&copy_range(&a, 0, i - 1))
    }
}

/// `s` with every trailing `/` removed.
pub open spec fn trim_slashes(s: Seq<char>) -> Seq<char>
    decreases s.len(),
{
    if s.len() > 0 && s.last() == '/' {
        trim_slashes(s.drop_last())
    } else {
        s
    }
}

/// The authority of an HTTPS callback base URL, which may end in slashes but
/// carries no credentials, path, query or fragment.
pub open spec fn callback_authority_spec(address: Seq<char>) -> Option<Seq<char>> {
    if address.len() >= 8 && address.take(8) == "https://"@ {
        let a = trim_slashes(address.skip(8));
        if a.len() == 0 || a.contains('/') || a.contains('@') || a.contains('?') || a.contains('#') {
            None
        } else {
            Some(a)
        }
    } else {
        None
    }
}

fn contains_char(s: &[char], c: char) -> (r: bool)
    ensures
        r == s@.contains(c),
{
    let mut i: usize = 0;
    while i < s.len()
        invariant
            i <= s@.len(),
            forall|j: int| 0 <= j < i ==> s@[j] != c,
        decreases s.len() - i,
    {
        if s[i] == c {
            assert(s@[i as int] == c);
            return true;
        }
        i += 1;
    }
    false
}

pub fn callback_authority(address: &str) -> (r: Option<String>)
    ensures
        match r {
            Some(a) => callback_authority_spec(address@) == Some(a@),
            None => callback_authority_spec(address@) is None,
        },
{
    let c = chars_of(address);
    let n = c.len();
    if n < 8 {
        return None;
    }
    let prefix = copy_range(&c, 0, 8);
    assert(prefix@ =~= c@.take(8));
    if !chars_eq_str(&prefix, "https://") {
        return None;
    }
    let mut e = n;
    assert(c@.skip(8) =~= c@.subrange(8, e as int));
    while e > 8 && c[e - 1] == '/'
        invariant
            8 <= e <= n,
            n == c@.len(),
            trim_slashes(c@.skip(8)) == trim_slashes(c@.subrange(8, e as int)),
        decreases e,
    {
        assert(c@.subrange(8, e as int).drop_last() =~= c@.subrange(8, e - 1));
        e -= 1;
    }
    let a = copy_range(&c, 8, e);
    assert(trim_slashes(a@) == a@);
    if a.len() == 0 || contains_char(&a, '/') || contains_char(&a, '@') || contains_char(&a, '?') || contains_char(&a, '#') {
        return None;
    }
    Some(string_of(&a))
}

/// Whether the hub may dial a node's callback: an HTTPS authority whose host
/// is a hostname, or a literal IP that is neither unspecified nor link-local
/// (169.254.0.0/16, fe80::/10: the cloud metadata ranges). `host_ip` is the
/// callback's host parsed as an IP literal, if it is one.
pub open spec fn push_address_ok_spec(address: Seq<char>, host_ip: Option<IpLiteral>) -> bool {
    match callback_authority_spec(address) {
        None => false,
        Some(a) => match host_ip {
            Some(IpLiteral::V4(x, y, z, w)) => !((x == 169 && y == 254) || (x == 0 && y == 0 && z == 0 && w == 0)),
            Some(IpLiteral::V6 { first_segment, unspecified, .. }) => !(unspecified || (first_segment & 0xffc0u16) == 0xfe80u16),
            None => true,
        },
    }
}

pub fn push_address_ok(address: &str, host_ip: Option<IpLiteral>) -> (r: bool)
    ensures
        r == push_address_ok_spec(address@, host_ip),
{
    if callback_authority(address).is_none() {
        return false;
    }
    match host_ip {
        Some(IpLiteral::V4(x, y, z, w)) => !((x == 169 && y == 254) || (x == 0 && y == 0 && z == 0 && w == 0)),
        Some(IpLiteral::V6 { first_segment, unspecified, .. }) => !(unspecified || (first_segment & 0xffc0u16) == 0xfe80u16),
        None => true,
    }
}

/// The address to dial for a server bound to `host`: a wildcard bind is
/// reached on the loopback address of its family.
pub open spec fn connect_host_spec(host: Seq<char>) -> Seq<char> {
    if host == "0.0.0.0"@ {
        "127.0.0.1"@
    } else if host == "::"@ {
        "::1"@
    } else {
        host
    }
}

pub fn connect_host(host: &str) -> (r: String)
    ensures
        r@ == connect_host_spec(host@),
{
    let c = chars_of(host);
    if crate::text::chars_eq_str(&c, "0.0.0.0") {
        String::from_str("127.0.0.1")
    } else if crate::text::chars_eq_str(&c, "::") {
        String::from_str("::1")
    } else {
        string_of(&c)
    }
}

} // verus!
