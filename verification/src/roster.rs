//! Reading a node's self-description for fleet routing: the models it is
//! running and the VRAM they hold, and the mesh facts it reports about
//! itself (health, protocol, load) with the trust the hub assigned it.
//! Missing or malformed facts take conservative defaults.
use vstd::prelude::*;
use crate::json::{as_str, as_u64, member, Json};
use crate::text::{chars_eq_str, chars_of};

verus! {

/// What a roster row says the node is running.
pub struct NodeLoadFacts {
    pub serving: Vec<String>,
    pub used_vram_bytes: u64,
}

/// An endpoint entry is counted when its `state` is `running`.
pub open spec fn is_running(e: Json) -> bool {
    as_str(member(e, "state"@)) == Some("running"@)
}

/// The models of the running entries that name one, in order.
pub open spec fn serving_spec(a: Seq<Json>) -> Seq<Seq<char>>
    decreases a.len(),
{
    if a.len() == 0 {
        Seq::empty()
    } else {
        let rest = serving_spec(a.drop_last());
        let e = a.last();
        if is_running(e) {
            match as_str(member(e, "model"@)) {
                Some(m) => rest.push(m),
                None => rest,
            }
        } else {
            rest
        }
    }
}

pub open spec fn saturating_add(a: u64, b: u64) -> u64 {
    if a + b > u64::MAX { u64::MAX } else { (a + b) as u64 }
}

/// The VRAM the running entries hold (a missing figure counts as none),
/// summed without overflow.
pub open spec fn used_spec(a: Seq<Json>) -> u64
    decreases a.len(),
{
    if a.len() == 0 {
        0
    } else {
        let rest = used_spec(a.drop_last());
        let e = a.last();
        if is_running(e) {
            saturating_add(rest, match as_u64(member(e, "vram_bytes"@)) { Some(n) => n, None => 0 })
        } else {
            rest
        }
    }
}

/// The entries of an `endpoints` array; nothing for any other value.
pub open spec fn entries_of(endpoints: Option<Json>) -> Seq<Json> {
    match endpoints {
        Some(Json::Array(a)) => a@,
        _ => Seq::empty(),
    }
}

fn text_is(v: Option<&Json>, lit: &str) -> (r: bool)
    ensures
        r == (as_str(match v { Some(j) => Some(*j), None => None }) == Some(lit@)),
{
    match v {
        Some(Json::String(s)) => {
            let c = chars_of(s.as_str());
            chars_eq_str(&c, lit)
        },
        _ => false,
    }
}

/// The load a node's `endpoints` array describes (see [`serving_spec`] and
/// [`used_spec`]).
pub fn load_from_endpoints(endpoints: Option<&Json>) -> (r: NodeLoadFacts)
    ensures
        r.serving@.map_values(|s: String| s@) == serving_spec(entries_of(match endpoints { Some(j) => Some(*j), None => None })),
        r.used_vram_bytes == used_spec(entries_of(match endpoints { Some(j) => Some(*j), None => None })),
{
    let mut serving: Vec<String> = Vec::new();
    let mut used: u64 = 0;
    let ghost all = entries_of(match endpoints { Some(j) => Some(*j), None => None });
    match endpoints {
        Some(Json::Array(a)) => {
            let mut i: usize = 0;
            while i < a.len()
                invariant
                    i <= a@.len(),
                    all == a@,
                    serving@.map_values(|s: String| s@) == serving_spec(a@.take(i as int)),
                    used == used_spec(a@.take(i as int)),
                decreases a.len() - i,
            {
                let e = &a[i];
                let ghost t = a@.take(i + 1);
                assert(t.drop_last() =~= a@.take(i as int));
                assert(t.last() == *e);
                if text_is(e.get("state"), "running") {
                    match e.get("model") {
                        Some(Json::String(m)) => {
                            serving.push(m.clone());
                        },
                        _ => {},
                    }
                    let add: u64 = match e.get("vram_bytes") {
                        Some(v) => match v.as_u64() {
                            Some(n) => n,
                            None => 0,
                        },
                        None => 0,
                    };
                    used = used.saturating_add(add);
                }
                assert(serving@.map_values(|s: String| s@) =~= serving_spec(t));
                i += 1;
            }
            assert(a@.take(a@.len() as int) =~= a@);
        },
        _ => {
            assert(serving@.map_values(|s: String| s@) =~= Seq::<Seq<char>>::empty());
        },
    }
    NodeLoadFacts { serving, used_vram_bytes: used }
}

/// A node's reported health.
#[derive(Debug, Clone, Copy, PartialEq, Eq, Structural)]
pub enum MeshHealthFact {
    Ready,
    Degraded,
    Draining,
    Offline,
}

/// The trust the hub recorded for a node.
#[derive(Debug, Clone, Copy, PartialEq, Eq, Structural)]
pub enum TrustFact {
    Paired,
    LegacyToken,
    Untrusted,
}

/// What a node's `mesh` block and the hub's `_cameo_hub` stamp say.
pub struct MeshFacts {
    pub health: MeshHealthFact,
    pub protocol_major: u16,
    pub owner_reclaim: bool,
    pub inflight: u32,
    pub estimated_ttft_ms: u64,
    pub trust: TrustFact,
}

/// A member of the `mesh` block, if the description has one.
pub open spec fn mesh_field(desc: Json, k: Seq<char>) -> Option<Json> {
    match member(desc, "mesh"@) {
        Some(m) => member(m, k),
        None => None,
    }
}

pub open spec fn health_spec(desc: Json) -> MeshHealthFact {
    let h = as_str(mesh_field(desc, "health"@));
    if h == Some("degraded"@) {
        MeshHealthFact::Degraded
    } else if h == Some("draining"@) {
        MeshHealthFact::Draining
    } else if h == Some("offline"@) {
        MeshHealthFact::Offline
    } else {
        MeshHealthFact::Ready
    }
}

pub open spec fn trust_spec(desc: Json) -> TrustFact {
    let t = match member(desc, "_cameo_hub"@) {
        Some(hub) => as_str(member(hub, "trust"@)),
        None => None,
    };
    if t == Some("paired"@) {
        TrustFact::Paired
    } else if t == Some("untrusted"@) {
        TrustFact::Untrusted
    } else {
        TrustFact::LegacyToken
    }
}

/// The mesh facts of a description: a health other than `degraded`,
/// `draining` or `offline` is ready; a protocol major that is missing or does
/// not fit `u16` is 1; no reclaim and no requests in flight unless stated
/// (an in-flight count that does not fit `u32` is none); a first-token
/// estimate of 750 ms unless stated; trust from the hub's stamp, legacy when
/// it names neither `paired` nor `untrusted`.
pub open spec fn mesh_spec(desc: Json) -> (MeshHealthFact, u16, bool, u32, u64, TrustFact) {
    let pm = match as_u64(mesh_field(desc, "protocol_major"@)) {
        Some(n) => if n <= u16::MAX { n as u16 } else { 1u16 },
        None => 1u16,
    };
    let reclaim = match mesh_field(desc, "owner_reclaim"@) {
        Some(Json::Bool(b)) => b,
        _ => false,
    };
    let inflight = match as_u64(mesh_field(desc, "inflight"@)) {
        Some(n) => if n <= u32::MAX { n as u32 } else { 0u32 },
        None => 0u32,
    };
    let ttft = match as_u64(mesh_field(desc, "estimated_ttft_ms"@)) {
        Some(n) => n,
        None => 750u64,
    };
    (health_spec(desc), pm, reclaim, inflight, ttft, trust_spec(desc))
}

fn mesh_member<'a>(desc: &'a Json, k: &str) -> (r: Option<&'a Json>)
    ensures
        match r {
            Some(v) => mesh_field(*desc, k@) == Some(*v),
            None => mesh_field(*desc, k@) is None,
        },
{
    match desc.get("mesh") {
        Some(m) => m.get(k),
        None => None,
    }
}

fn u64_of(v: Option<&Json>) -> (r: Option<u64>)
    ensures
        r == as_u64(match v { Some(j) => Some(*j), None => None }),
{
    match v {
        Some(j) => j.as_u64(),
        None => None,
    }
}

pub fn mesh_facts(desc: &Json) -> (r: MeshFacts)
    ensures
        (r.health, r.protocol_major, r.owner_reclaim, r.inflight, r.estimated_ttft_ms, r.trust) == mesh_spec(*desc),
{
    let h = mesh_member(desc, "health");
    let health = if text_is(h, "degraded") {
        MeshHealthFact::Degraded
    } else if text_is(h, "draining") {
        MeshHealthFact::Draining
    } else if text_is(h, "offline") {
        MeshHealthFact::Offline
    } else {
        MeshHealthFact::Ready
    };
    let protocol_major: u16 = match u64_of(mesh_member(desc, "protocol_major")) {
        Some(n) => if n <= 65535 { n as u16 } else { 1 },
        None => 1,
    };
    let owner_reclaim = match mesh_member(desc, "owner_reclaim") {
        Some(Json::Bool(b)) => *b,
        _ => false,
    };
    let inflight: u32 = match u64_of(mesh_member(desc, "inflight")) {
        Some(n) => if n <= 4294967295 { n as u32 } else { 0 },
        None => 0,
    };
    let estimated_ttft_ms: u64 = match u64_of(mesh_member(desc, "estimated_ttft_ms")) {
        Some(n) => n,
        None => 750,
    };
    let stamp = match desc.get("_cameo_hub") {
        Some(hub) => hub.get("trust"),
        None => None,
    };
    let trust = if text_is(stamp, "paired") {
        TrustFact::Paired
    } else if text_is(stamp, "untrusted") {
        TrustFact::Untrusted
    } else {
        TrustFact::LegacyToken
    };
    MeshFacts { health, protocol_major, owner_reclaim, inflight, estimated_ttft_ms, trust }
}

/// A fact copied into a summary: a scalar (null, boolean, number, string) as
/// it is; a missing, array or object value as null.
pub open spec fn kept(v: Option<Json>) -> Json {
    match v {
        Some(Json::Bool(b)) => Json::Bool(b),
        Some(Json::Number(n)) => Json::Number(n),
        Some(Json::String(s)) => Json::String(s),
        _ => Json::Null,
    }
}

/// A member of a GPU entry's `gpu` object.
pub open spec fn gpu_member(a: Json, k: Seq<char>) -> Option<Json> {
    match member(a, "gpu"@) {
        Some(g) => member(g, k),
        None => None,
    }
}

/// One summary row: the GPU's model (`GPU` when it names none), its VRAM and
/// VRAM in use, and its tier.
pub open spec fn gpu_row(a: Json, row: Json) -> bool {
    row matches Json::Object(m) && {
        &&& m@.len() == 4
        &&& m@[0].0@ == "model"@
        &&& match gpu_member(a, "model"@) {
            Some(x) => m@[0].1 == kept(Some(x)),
            None => m@[0].1 matches Json::String(s) && s@ == "GPU"@,
        }
        &&& m@[1].0@ == "vram_mb"@
        &&& m@[1].1 == kept(gpu_member(a, "vram_mb"@))
        &&& m@[2].0@ == "vram_used_mb"@
        &&& m@[2].1 == kept(gpu_member(a, "vram_used_mb"@))
        &&& m@[3].0@ == "tier"@
        &&& m@[3].1 == kept(member(a, "tier"@))
    }
}

fn kept_copy(v: Option<&Json>) -> (r: Json)
    ensures
        r == kept(match v { Some(j) => Some(*j), None => None }),
{
    match v {
        Some(Json::Bool(b)) => Json::Bool(*b),
        Some(Json::Number(n)) => Json::Number(*n),
        Some(Json::String(s)) => Json::String(s.clone()),
        _ => Json::Null,
    }
}

fn gpu_entry(a: &Json) -> (r: Json)
    ensures
        gpu_row(*a, r),
{
    let gpu = a.get("gpu");
    let model = match gpu {
        Some(g) => match g.get("model") {
            Some(x) => kept_copy(Some(x)),
            None => Json::String(String::from_str("GPU")),
        },
        None => Json::String(String::from_str("GPU")),
    };
    let vram = match gpu {
        Some(g) => kept_copy(g.get("vram_mb")),
        None => Json::Null,
    };
    let used = match gpu {
        Some(g) => kept_copy(g.get("vram_used_mb")),
        None => Json::Null,
    };
    let tier = kept_copy(a.get("tier"));
    let mut m: Vec<(String, Json)> = Vec::new();
    m.push((String::from_str("model"), model));
    m.push((String::from_str("vram_mb"), vram));
    m.push((String::from_str("vram_used_mb"), used));
    m.push((String::from_str("tier"), tier));
    Json::Object(m)
}

/// A compact view of a node's GPUs for the farm listing: one row per entry
/// of its `gpus` array (see [`gpu_row`]); no rows when it has no such array.
pub fn gpu_summary(node: &Json) -> (r: Json)
    ensures
        r matches Json::Array(rows) && match member(*node, "gpus"@) {
            Some(Json::Array(list)) => {
                &&& rows@.len() == list@.len()
                &&& forall|i: int| 0 <= i < list@.len() ==> gpu_row(#[trigger] list@[i], rows@[i])
            },
            _ => rows@.len() == 0,
        },
{
    let mut rows: Vec<Json> = Vec::new();
    match node.get("gpus") {
        Some(Json::Array(list)) => {
            let mut i: usize = 0;
            while i < list.len()
                invariant
                    i <= list@.len(),
                    rows@.len() == i,
                    forall|j: int| 0 <= j < i ==> gpu_row(#[trigger] list@[j], rows@[j]),
                decreases list.len() - i,
            {
                let row = gpu_entry(&list[i]);
                rows.push(row);
                i += 1;
            }
        },
        _ => {},
    }
    Json::Array(rows)
}

} // verus!
