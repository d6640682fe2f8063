//! Ensuring VRAM residency for a harness session. The node first tries to
//! reuse a resident model through a lease; only when no ready endpoint serves
//! the model does it start one, and then it claims again. Each answer records
//! what happened on the session, so the console shows why a session is
//! blocked. The daemon performs the claims and the start; the decisions are
//! made here.
use vstd::prelude::*;
use crate::sessions::{strings_view, VramCapability, VramView};

verus! {

/// What a lease claim for a session's model came back with.
pub enum LeaseClaim {
    /// The lease holds, on the endpoint with this id.
    Claimed(String),
    /// The lease could not be written to storage.
    StorageUnavailable,
    /// No ready endpoint serves the model.
    ModelUnavailable,
}

/// A decided answer to an ensure request.
pub struct EnsureReply {
    pub status: u16,
    /// The error message of a refusal; `None` on success.
    pub error: Option<String>,
    /// What to record on the session, when anything is recorded.
    pub record: Option<VramCapability>,
    /// Whether a resident model was reused rather than started.
    pub reused: bool,
}

/// The next thing an ensure request does after its first claim.
pub enum EnsureStep {
    Reply(EnsureReply),
    /// Start an endpoint for the model, then claim again.
    StartModel,
}

pub open spec fn ensure_record(
    status: Seq<char>,
    model: Seq<char>,
    endpoint_id: Seq<char>,
    impact: Seq<char>,
    evicts: Seq<Seq<char>>,
) -> VramView {
    VramView { status, action: "ensure"@, model, endpoint_id, impact, evicts }
}

/// The reply that refuses with an unavailable lease store.
pub open spec fn storage_refusal(r: EnsureReply) -> bool {
    &&& r.status == 503
    &&& r.error matches Some(m) && m@ == "lease storage unavailable; retry claim"@
    &&& r.record is None
    &&& !r.reused
}

fn storage_reply() -> (r: EnsureReply)
    ensures
        storage_refusal(r),
{
    EnsureReply {
        status: 503,
        error: Some(String::from_str("lease storage unavailable; retry claim")),
        record: None,
        reused: false,
    }
}

fn capability(status: &str, model: &str, endpoint_id: String, impact: &str, evicts: Vec<String>) -> (r: VramCapability)
    ensures
        r@ == ensure_record(status@, model@, endpoint_id@, impact@, strings_view(evicts@)),
{
    VramCapability {
        status: String::from_str(status),
        action: String::from_str("ensure"),
        model: String::from_str(model),
        endpoint_id,
        impact: String::from_str(impact),
        evicts,
    }
}

/// The first claim decides: a held lease reuses the resident model (`200`),
/// an unwritable lease store refuses (`503`), and a model that no endpoint
/// serves has to be started.
pub fn ensure_first_claim(model: &str, claim: LeaseClaim) -> (r: EnsureStep)
    ensures
        match claim {
            LeaseClaim::Claimed(endpoint_id) => r matches EnsureStep::Reply(rep) && {
                &&& rep.status == 200
                &&& rep.error is None
                &&& rep.reused
                &&& rep.record matches Some(c) && c@ == ensure_record(
                    "resident"@, model@, endpoint_id@, "reused resident model; no eviction"@, seq![])
            },
            LeaseClaim::StorageUnavailable => r matches EnsureStep::Reply(rep) && storage_refusal(rep),
            LeaseClaim::ModelUnavailable => r is StartModel,
        },
{
    match claim {
        LeaseClaim::Claimed(endpoint_id) => {
            let c = capability("resident", model, endpoint_id, "reused resident model; no eviction", Vec::new());
            proof {
                assert(strings_view(Seq::<String>::empty()) =~= Seq::<Seq<char>>::empty());
            }
            EnsureStep::Reply(EnsureReply { status: 200, error: None, record: Some(c), reused: true })
        },
        LeaseClaim::StorageUnavailable => EnsureStep::Reply(storage_reply()),
        LeaseClaim::ModelUnavailable => EnsureStep::StartModel,
    }
}

/// What a refused start records: the session is blocked, with the start's
/// own error (or a generic one) and the endpoints it would have evicted. The
/// refusal itself is answered as the start answered it.
pub fn ensure_refused(model: &str, error: Option<&str>, evicts: Vec<String>) -> (r: VramCapability)
    ensures
        r@ == ensure_record(
            "blocked"@,
            model@,
            seq![],
            match error {
                Some(e) => e@,
                None => "Cameo could not admit the model"@,
            },
            strings_view(evicts@),
        ),
{
    let impact = match error {
        Some(e) => e,
        None => "Cameo could not admit the model",
    };
    capability("blocked", model, String::new(), impact, evicts)
}

/// The claim after a successful start: a held lease answers `201` (the
/// impact says whether eviction was approved), an unwritable lease store
/// refuses with `503`, and a model that still has no ready endpoint is
/// recorded as blocked and answered `502`.
pub fn ensure_second_claim(model: &str, allow_evict: bool, claim: LeaseClaim) -> (r: EnsureReply)
    ensures
        match claim {
            LeaseClaim::Claimed(endpoint_id) => {
                &&& r.status == 201
                &&& r.error is None
                &&& !r.reused
                &&& r.record matches Some(c) && c@ == ensure_record(
                    "resident"@,
                    model@,
                    endpoint_id@,
                    if allow_evict {
                        "loaded after explicit operator-approved VRAM admission"@
                    } else {
                        "loaded without evicting another endpoint"@
                    },
                    seq![],
                )
            },
            LeaseClaim::StorageUnavailable => storage_refusal(r),
            LeaseClaim::ModelUnavailable => {
                &&& r.status == 502
                &&& r.error matches Some(m) && m@ == "model process did not become ready; inspect /api/servers"@
                &&& !r.reused
                &&& r.record matches Some(c) && c@ == ensure_record(
                    "blocked"@, model@, seq![], "endpoint did not become ready; inspect Cameo servers"@, seq![])
            },
        },
{
    proof {
        assert(strings_view(Seq::<String>::empty()) =~= Seq::<Seq<char>>::empty());
    }
    match claim {
        LeaseClaim::Claimed(endpoint_id) => {
            let impact = if allow_evict {
                "loaded after explicit operator-approved VRAM admission"
            } else {
                "loaded without evicting another endpoint"
            };
            let c = capability("resident", model, endpoint_id, impact, Vec::new());
            EnsureReply { status: 201, error: None, record: Some(c), reused: false }
        },
        LeaseClaim::StorageUnavailable => storage_reply(),
        LeaseClaim::ModelUnavailable => {
            let c = capability(
                "blocked",
                model,
                String::new(),
                "endpoint did not become ready; inspect Cameo servers",
                Vec::new(),
            );
            EnsureReply {
                status: 502,
                error: Some(String::from_str("model process did not become ready; inspect /api/servers")),
                record: Some(c),
                reused: false,
            }
        },
    }
}

} // verus!
