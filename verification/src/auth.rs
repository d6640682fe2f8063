//! Role-based API credentials and deployment posture.
//!
//! A **consumer** credential reaches inference only; an **operator**
//! credential reaches the control surface as well. The posture decides whether
//! a co-located harness on the host-only socket counts as the operator.
use vstd::prelude::*;
use crate::text::{chars_eq_str, chars_of, lower_chars, lower_seq, push_chars, push_str_chars, string_of, trim, trim_chars};

verus! {

/// What a credential is allowed to do. `Operator` is a superset of
/// `Consumer`: an operator may also run inference.
#[derive(Debug, Clone, Copy, PartialEq, Eq, Structural)]
pub enum Role {
    Operator,
    Consumer,
}

/// One named API key with its role; the label is the operator's bookkeeping.
#[derive(Debug, Clone)]
pub struct ApiKey {
    pub key: String,
    pub role: Role,
    pub label: String,
}

/// Deployment posture: who the box trusts.
#[derive(Debug, Clone, Copy, PartialEq, Eq, Structural)]
pub enum Posture {
    /// One operator owns the box; a co-located harness may be granted keyless
    /// GPU control via the privileged local socket.
    SelfHost,
    /// Many users share the box; only an operator credential may manipulate
    /// VRAM.
    MultiTenant,
}

/// The posture a (case-insensitive) name denotes.
pub open spec fn posture_of(name: Seq<char>) -> Option<Posture> {
    let l = lower_seq(name);
    if l == "self-host"@ || l == "selfhost"@ || l == "self"@ || l == "single"@ || l
        == "single-tenant"@ {
        Some(Posture::SelfHost)
    } else if l == "multi-tenant"@ || l == "multitenant"@ || l == "multi"@ || l
        == "enterprise"@ {
        Some(Posture::MultiTenant)
    } else {
        None
    }
}

impl Posture {
    pub fn parse(s: &str) -> (r: Option<Posture>)
        ensures
            r == posture_of(s@),
    {
        let c = chars_of(s);
        let l = lower_chars(&c);
        if chars_eq_str(&l, "self-host") || chars_eq_str(&l, "selfhost") || chars_eq_str(&l, "self")
            || chars_eq_str(&l, "single") || chars_eq_str(&l, "single-tenant") {
            Some(Posture::SelfHost)
        } else if chars_eq_str(&l, "multi-tenant") || chars_eq_str(&l, "multitenant")
            || chars_eq_str(&l, "multi") || chars_eq_str(&l, "enterprise") {
            Some(Posture::MultiTenant)
        } else {
            None
        }
    }

    /// Whether a co-located harness may be granted keyless operator power.
    pub fn allows_local_harness(self) -> (r: bool)
        ensures
            r == (self == Posture::SelfHost),
    {
        match self {
            Posture::SelfHost => true,
            Posture::MultiTenant => false,
        }
    }
}

/// The credentials as (key, role) pairs, in configured order.
pub open spec fn keys_view(keys: Seq<ApiKey>) -> Seq<(Seq<char>, Role)> {
    keys.map_values(|k: ApiKey| (k.key@, k.role))
}

/// The role of the first credential whose key equals `p`.
pub open spec fn first_role(keys: Seq<(Seq<char>, Role)>, p: Seq<char>) -> Option<Role>
    decreases keys.len(),
{
    if keys.len() == 0 {
        None
    } else if keys[0].0 == p {
        Some(keys[0].1)
    } else {
        first_role(keys.drop_first(), p)
    }
}

pub open spec fn has_role(keys: Seq<(Seq<char>, Role)>, role: Role) -> bool {
    exists|i: int| 0 <= i < keys.len() && (#[trigger] keys[i]).1 == role
}

/// The set of credentials the daemon accepts, each carrying a role.
#[derive(Debug, Clone)]
pub struct KeyRing {
    keys: Vec<ApiKey>,
}

impl KeyRing {
    pub closed spec fn view(&self) -> Seq<(Seq<char>, Role)> {
        keys_view(self.keys@)
    }

    pub fn new(keys: Vec<ApiKey>) -> (r: KeyRing)
        ensures
            r.view() == keys_view(keys@),
    {
        KeyRing { keys }
    }

    /// An empty key ring: nothing is gated.
    pub fn empty() -> (r: KeyRing)
        ensures
            r.view().len() == 0,
    {
        let r = KeyRing { keys: Vec::new() };
        assert(r.view() =~= Seq::<(Seq<char>, Role)>::empty());
        r
    }

    /// Constant-time comparison: every byte pair is examined whatever the
    /// earlier ones were, so timing reveals at most the length.
    pub fn ct_eq(a: &str, b: &str) -> (r: bool)
        ensures
            r == (a@ == b@),
    {
        let x = a.as_bytes();
        let y = b.as_bytes();
        let r = bytes_ct_eq(x, y);
        proof {
            vstd::utf8::encode_utf8_decode_utf8(a@);
            vstd::utf8::encode_utf8_decode_utf8(b@);
        }
        r
    }

    /// The role of a presented bearer token, if it matches a configured key.
    pub fn role_of(&self, presented: Option<&str>) -> (r: Option<Role>)
        ensures
            r == match presented {
                None => None,
                Some(p) => first_role(self.view(), p@),
            },
    {
        let p = match presented {
            None => return None,
            Some(p) => p,
        };
        let mut i: usize = 0;
        assert(self.view().skip(0) =~= self.view());
        while i < self.keys.len()
            invariant
                presented == Some(p),
                i <= self.keys@.len(),
                self.view().len() == self.keys@.len(),
                first_role(self.view(), p@) == first_role(self.view().skip(i as int), p@),
            decreases self.keys.len() - i,
        {
            assert(self.view().skip(i as int)[0] == (self.keys@[i as int].key@, self.keys@[i as int].role));
            assert(self.view().skip(i as int).len() > 0);
            if Self::ct_eq(p, self.keys[i].key.as_str()) {
                let role = self.keys[i].role;
                return Some(role);
            }
            assert(self.view().skip(i as int).drop_first() =~= self.view().skip(i + 1));
            i += 1;
        }
        None
    }

    fn any_role(&self, role: Role) -> (r: bool)
        ensures
            r == has_role(self.view(), role),
    {
        let mut i: usize = 0;
        while i < self.keys.len()
            invariant
                i <= self.keys@.len(),
                forall|j: int| 0 <= j < i ==> (#[trigger] self.keys@[j]).role != role,
            decreases self.keys.len() - i,
        {
            if self.keys[i].role == role {
                assert(self.view()[i as int].1 == role);
                return true;
            }
            i += 1;
        }
        assert forall|j: int| 0 <= j < self.view().len() implies (#[trigger] self.view()[j]).1 != role by {
            assert(self.keys@[j].role != role);
        }
        false
    }

    /// Whether any operator credential exists, so operator routes must
    /// authenticate. When false, the operator surface is open.
    pub fn requires_operator(&self) -> (r: bool)
        ensures
            r == has_role(self.view(), Role::Operator),
    {
        self.any_role(Role::Operator)
    }

    /// Whether any consumer credential exists, so `/v1` must authenticate.
    pub fn requires_consumer(&self) -> (r: bool)
        ensures
            r == has_role(self.view(), Role::Consumer),
    {
        self.any_role(Role::Consumer)
    }

    /// Does a presented token grant operator (VRAM-manipulating) access?
    pub fn is_operator(&self, presented: Option<&str>) -> (r: bool)
        ensures
            r == (match presented {
                None => None,
                Some(p) => first_role(self.view(), p@),
            } == Some(Role::Operator)),
    {
        match self.role_of(presented) {
            Some(Role::Operator) => true,
            _ => false,
        }
    }

    /// Does a presented token grant at least consumer (inference) access?
    /// Operators qualify too.
    pub fn is_consumer_or_better(&self, presented: Option<&str>) -> (r: bool)
        ensures
            r == (match presented {
                None => None,
                Some(p) => first_role(self.view(), p@),
            } is Some),
    {
        self.role_of(presented).is_some()
    }

    /// The first operator key, handed to a hub so it can call back.
    pub fn operator_key(&self) -> (r: Option<&str>)
        ensures
            r is Some <==> has_role(self.view(), Role::Operator),
            r matches Some(k) ==> first_role(self.view(), k@) is Some,
    {
        let mut i: usize = 0;
        while i < self.keys.len()
            invariant
                i <= self.keys@.len(),
                forall|j: int| 0 <= j < i ==> (#[trigger] self.keys@[j]).role != Role::Operator,
            decreases self.keys.len() - i,
        {
            if self.keys[i].role == Role::Operator {
                assert(self.view()[i as int].1 == Role::Operator);
                proof {
                    lemma_first_role_found(self.view(), i as int);
                }
                return Some(self.keys[i].key.as_str());
            }
            i += 1;
        }
        assert forall|j: int| 0 <= j < self.view().len() implies (#[trigger] self.view()[j]).1 != Role::Operator by {
            assert(self.keys@[j].role != Role::Operator);
        }
        None
    }
}

/// A key present in the ring is recognised with some role.
pub proof fn lemma_first_role_found(keys: Seq<(Seq<char>, Role)>, i: int)
    requires
        0 <= i < keys.len(),
    ensures
        first_role(keys, keys[i].0) is Some,
    decreases i,
{
    if i > 0 && keys[0].0 != keys[i].0 {
        lemma_first_role_found(keys.drop_first(), i - 1);
    }
}

/// A recognised role belongs to a credential with exactly that key.
pub proof fn lemma_first_role_sound(keys: Seq<(Seq<char>, Role)>, p: Seq<char>)
    ensures
        first_role(keys, p) matches Some(r) ==> exists|i: int| 0 <= i < keys.len() && (#[trigger] keys[i]) == (p, r),
    decreases keys.len(),
{
    if keys.len() > 0 && keys[0].0 != p {
        lemma_first_role_sound(keys.drop_first(), p);
        if first_role(keys, p) is Some {
            let r = first_role(keys, p).unwrap();
            let i = choose|i: int| 0 <= i < keys.drop_first().len() && (#[trigger] keys.drop_first()[i]) == (p, r);
            assert(keys[i + 1] == (p, r));
        }
    } else if keys.len() > 0 {
        assert(keys[0] == (p, keys[0].1));
    }
}

/// Equality of two byte strings, examining every byte pair whatever the
/// earlier ones were.
fn bytes_ct_eq(a: &[u8], b: &[u8]) -> (r: bool)
    ensures
        r == (a@ == b@),
{
    if a.len() != b.len() {
        return false;
    }
    let mut acc: u8 = 0;
    let mut i: usize = 0;
    while i < a.len()
        invariant
            a@.len() == b@.len(),
            i <= a@.len(),
            (acc == 0) == (forall|j: int| 0 <= j < i ==> a@[j] == b@[j]),
        decreases a.len() - i,
    {
        let x = a[i];
        let y = b[i];
        let d = x ^ y;
        assert((x ^ y == 0) == (x == y)) by (bit_vector);
        assert(((acc | d) == 0) == (acc == 0 && d == 0)) by (bit_vector);
        acc = acc | d;
        i += 1;
    }
    if acc == 0 {
        assert(a@ =~= b@);
        true
    } else {
        false
    }
}

/// Laws of the key ring: a token the ring holds only as consumer
/// credentials never authorises the control surface; every token that
/// authorises the control surface also authorises inference; a token that
/// matches no configured key authorises nothing; and whatever role is granted
/// is the role of a configured key equal to the token.
pub proof fn law_roles_are_nested(keys: Seq<(Seq<char>, Role)>, p: Seq<char>)
    ensures
        (forall|i: int| 0 <= i < keys.len() && (#[trigger] keys[i]).0 == p ==> keys[i].1 == Role::Consumer)
            ==> first_role(keys, p) != Some(Role::Operator),
        first_role(keys, p) == Some(Role::Operator) ==> first_role(keys, p) is Some,
        (forall|i: int| 0 <= i < keys.len() ==> (#[trigger] keys[i]).0 != p) ==> first_role(keys, p) is None,
        first_role(keys, p) matches Some(r) ==> exists|i: int| 0 <= i < keys.len() && (#[trigger] keys[i]) == (p, r),
{
    lemma_first_role_sound(keys, p);
    if first_role(keys, p) is Some {
        let r = first_role(keys, p).unwrap();
        let i = choose|i: int| 0 <= i < keys.len() && (#[trigger] keys[i]) == (p, r);
        assert(keys[i].0 == p);
    }
}

impl Default for KeyRing {
    /// An empty key ring: nothing is gated.
    fn default() -> (r: KeyRing)
        ensures
            r.view().len() == 0,
    {
        KeyRing::empty()
    }
}

/// The role a keys-file entry names, ASCII case ignored.
pub open spec fn role_name_spec(name: Seq<char>) -> Option<Role> {
    let l = lower_seq(name);
    if l == "operator"@ || l == "admin"@ {
        Some(Role::Operator)
    } else if l == "consumer"@ || l == "user"@ || l == "inference"@ {
        Some(Role::Consumer)
    } else {
        None
    }
}

pub fn role_from_name(name: &str) -> (r: Option<Role>)
    ensures
        r == role_name_spec(name@),
{
    let l = lower_chars(&chars_of(name));
    if chars_eq_str(&l, "operator") || chars_eq_str(&l, "admin") {
        Some(Role::Operator)
    } else if chars_eq_str(&l, "consumer") || chars_eq_str(&l, "user") || chars_eq_str(&l, "inference") {
        Some(Role::Consumer)
    } else {
        None
    }
}

/// One entry of a keys file as written: key, role name, label.
pub struct KeyEntry {
    pub key: String,
    pub role: String,
    pub label: String,
}

/// Why an entry is refused, if it is: an unknown role (named in lower case),
/// then a key that is empty after trimming white space.
pub open spec fn entry_error(e: KeyEntry, source: Seq<char>) -> Option<Seq<char>> {
    if role_name_spec(e.role@) is None {
        Some("unknown role '"@ + lower_seq(e.role@) + "' in "@ + source)
    } else if trim(e.key@).len() == 0 {
        Some("empty key in "@ + source)
    } else {
        None
    }
}

/// The first refused entry, if any.
pub open spec fn first_entry_error(es: Seq<KeyEntry>, source: Seq<char>) -> Option<Seq<char>>
    decreases es.len(),
{
    if es.len() == 0 {
        None
    } else {
        match first_entry_error(es.drop_last(), source) {
            Some(m) => Some(m),
            None => entry_error(es.last(), source),
        }
    }
}

fn check_entry(e: &KeyEntry, source: &str) -> (r: Result<Role, String>)
    ensures
        match entry_error(*e, source@) {
            Some(m) => r matches Err(x) && x@ == m,
            None => r == Ok::<Role, String>(role_name_spec(e.role@).unwrap()),
        },
{
    match role_from_name(e.role.as_str()) {
        None => {
            let mut v: Vec<char> = Vec::new();
            push_str_chars(&mut v, "unknown role '");
            let l = lower_chars(&chars_of(e.role.as_str()));
            push_chars(&mut v, &l);
            push_str_chars(&mut v, "' in ");
            push_str_chars(&mut v, source);
            Err(string_of(&v))
        },
        Some(role) => {
            let t = trim_chars(&chars_of(e.key.as_str()));
            if t.len() == 0 {
                let mut v: Vec<char> = Vec::new();
                push_str_chars(&mut v, "empty key in ");
                push_str_chars(&mut v, source);
                Err(string_of(&v))
            } else {
                Ok(role)
            }
        },
    }
}

/// The keys a keys file grants, in file order: refused as a whole at its
/// first bad entry (see [`entry_error`]); `source` names the file in the
/// message.
pub fn keys_from_entries(entries: &[KeyEntry], source: &str) -> (r: Result<Vec<ApiKey>, String>)
    ensures
        match first_entry_error(entries@, source@) {
            Some(m) => r matches Err(x) && x@ == m,
            None => r matches Ok(keys) && keys@.len() == entries@.len() && forall|i: int| 0 <= i < entries@.len() ==> {
                &&& (#[trigger] keys@[i]).key == entries@[i].key
                &&& keys@[i].label == entries@[i].label
                &&& Some(keys@[i].role) == role_name_spec(entries@[i].role@)
            },
        },
{
    let ghost all = entries@;
    let mut out: Vec<ApiKey> = Vec::new();
    let n = entries.len();
    let mut i: usize = 0;
    assert(all.take(0).len() == 0);
    while i < n
        invariant
            n == all.len(),
            all == entries@,
            i <= n,
            first_entry_error(all.take(i as int), source@) is None,
            out@.len() == i,
            forall|j: int| 0 <= j < i ==> {
                &&& (#[trigger] out@[j]).key == all[j].key
                &&& out@[j].label == all[j].label
                &&& Some(out@[j].role) == role_name_spec(all[j].role@)
            },
        decreases n - i,
    {
        let e = &entries[i];
        let ghost t = all.take(i + 1);
        assert(t.drop_last() =~= all.take(i as int));
        assert(t.last() == all[i as int]);
        match check_entry(e, source) {
            Err(m) => {
                proof {
                    lemma_first_error_prefix(all, i + 1, source@);
                }
                return Err(m);
            },
            Ok(role) => {
                out.push(ApiKey { key: e.key.clone(), role, label: e.label.clone() });
            },
        }
        i += 1;
    }
    assert(all.take(n as int) =~= all);
    Ok(out)
}

proof fn lemma_first_error_prefix(es: Seq<KeyEntry>, k: int, source: Seq<char>)
    requires
        0 <= k <= es.len(),
        first_entry_error(es.take(k), source) is Some,
    ensures
        first_entry_error(es, source) == first_entry_error(es.take(k), source),
    decreases es.len() - k,
{
    if k < es.len() {
        assert(es.take(k + 1).drop_last() =~= es.take(k));
        lemma_first_error_prefix(es, k + 1, source);
    } else {
        assert(es.take(k) =~= es);
    }
}

} // verus!
