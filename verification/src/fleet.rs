//! The fleet controller's reading of what nodes answer: which models a node
//! has loaded, which endpoint serves a model, and the network class a fleet
//! is declared to run on.
use vstd::prelude::*;
use crate::json::{as_str, member, Json};
use crate::text::{
    chars_eq, chars_eq_str, chars_of, dec_string, decimal_chars, lower_chars, lower_seq, push_chars,
    push_str_chars, string_of,
};

verus! {

/// The elements of an array member, if `v` has one under `k`.
pub open spec fn array_member(v: Json, k: Seq<char>) -> Option<Seq<Json>> {
    match member(v, k) {
        Some(Json::Array(a)) => Some(a@),
        _ => None,
    }
}

/// An `/api/engines` answer lists `model` when its `models` array holds that
/// string; an answer without such an array lists nothing.
pub open spec fn lists_model(engines: Json, model: Seq<char>) -> bool {
    match array_member(engines, "models"@) {
        Some(a) => exists|i: int| 0 <= i < a.len() && as_str(Some(#[trigger] a[i])) == Some(model),
        None => false,
    }
}

pub fn engines_lists_model(engines: &Json, model: &str) -> (r: bool)
    ensures
        r == lists_model(*engines, model@),
{
    let m = chars_of(model);
    match engines.get("models") {
        Some(Json::Array(a)) => {
            let mut i: usize = 0;
            while i < a.len()
                invariant
                    i <= a@.len(),
                    m@ == model@,
                    array_member(*engines, "models"@) == Some(a@),
                    forall|j: int| 0 <= j < i ==> as_str(Some(#[trigger] a@[j])) != Some(model@),
                decreases a.len() - i,
            {
                match a[i].as_str() {
                    Some(s) => {
                        let c = chars_of(s);
                        if chars_eq(&c, &m) {
                            return true;
                        }
                    },
                    None => {},
                }
                i += 1;
            }
            false
        },
        _ => false,
    }
}

/// Whether a `/api/servers` entry runs `model`.
pub open spec fn runs_model(entry: Json, model: Seq<char>) -> bool {
    as_str(member(entry, "model"@)) == Some(model)
}

/// The first index from `i` on whose entry runs `model`.
pub open spec fn first_running(a: Seq<Json>, model: Seq<char>, i: int) -> Option<int>
    decreases a.len() - i,
{
    if i < 0 || i >= a.len() {
        None
    } else if runs_model(a[i], model) {
        Some(i)
    } else {
        first_running(a, model, i + 1)
    }
}

/// The id of the first listed endpoint that runs `model` (nothing when that
/// entry has no string id, or none runs it).
pub open spec fn server_id_spec(servers: Json, model: Seq<char>) -> Option<Seq<char>> {
    match array_member(servers, "servers"@) {
        Some(a) => match first_running(a, model, 0) {
            Some(i) => as_str(member(a[i], "id"@)),
            None => None,
        },
        None => None,
    }
}

pub fn server_id_for_model(servers: &Json, model: &str) -> (r: Option<String>)
    ensures
        match server_id_spec(*servers, model@) {
            Some(id) => r matches Some(s) && s@ == id,
            None => r is None,
        },
{
    let m = chars_of(model);
    match servers.get("servers") {
        Some(Json::Array(a)) => {
            let mut i: usize = 0;
            while i < a.len()
                invariant
                    i <= a@.len(),
                    m@ == model@,
                    array_member(*servers, "servers"@) == Some(a@),
                    first_running(a@, model@, 0) == first_running(a@, model@, i as int),
                decreases a.len() - i,
            {
                let runs = match a[i].get("model") {
                    Some(v) => match v.as_str() {
                        Some(s) => {
                            let c = chars_of(s);
                            chars_eq(&c, &m)
                        },
                        None => false,
                    },
                    None => false,
                };
                if runs {
                    return match a[i].get("id") {
                        Some(v) => match v.as_str() {
                            Some(s) => Some(String::from_str(s)),
                            None => None,
                        },
                        None => None,
                    };
                }
                i += 1;
            }
            None
        },
        _ => None,
    }
}

/// What stopping `model` on `address` does given the node's `/api/servers`
/// answer: the route to delete and the report to print, or the refusal when
/// no endpoint runs the model.
pub open spec fn stop_plan_spec(servers: Json, model: Seq<char>, address: Seq<char>) -> Result<(Seq<char>, Seq<char>), Seq<char>> {
    match server_id_spec(servers, model) {
        Some(id) => Ok(("/api/servers/"@ + id, "stopped "@ + id + " ("@ + model + ") on "@ + address)),
        None => Err("no running server for model "@ + model + " on "@ + address),
    }
}

pub fn stop_plan(servers: &Json, model: &str, address: &str) -> (r: Result<(String, String), String>)
    ensures
        match (r, stop_plan_spec(*servers, model@, address@)) {
            (Ok((path, message)), Ok((p, m))) => path@ == p && message@ == m,
            (Err(e), Err(m)) => e@ == m,
            _ => false,
        },
{
    match server_id_for_model(servers, model) {
        None => {
            let mut m = chars_of("no running server for model ");
            push_str_chars(&mut m, model);
            push_str_chars(&mut m, " on ");
            push_str_chars(&mut m, address);
            Err(string_of(&m))
        },
        Some(id) => {
            let mut p = chars_of("/api/servers/");
            push_str_chars(&mut p, id.as_str());
            let mut m = chars_of("stopped ");
            push_str_chars(&mut m, id.as_str());
            push_str_chars(&mut m, " (");
            push_str_chars(&mut m, model);
            push_str_chars(&mut m, ") on ");
            push_str_chars(&mut m, address);
            Ok((string_of(&p), string_of(&m)))
        },
    }
}

/// The interconnect a fleet runs on.
#[derive(Debug, Clone, Copy, PartialEq, Eq, Structural)]
pub enum NetworkClass {
    Infiniband,
    FastEthernet,
    Consumer,
}

/// `--network` names, case-insensitively; anything else is the home-lab
/// consumer network.
pub open spec fn network_class_spec(name: Seq<char>) -> NetworkClass {
    let l = lower_seq(name);
    if l == "infiniband"@ || l == "ib"@ {
        NetworkClass::Infiniband
    } else if l == "fast"@ || l == "ethernet"@ || l == "datacenter"@ {
        NetworkClass::FastEthernet
    } else {
        NetworkClass::Consumer
    }
}

pub fn network_class(name: &str) -> (r: NetworkClass)
    ensures
        r == network_class_spec(name@),
{
    let c = chars_of(name);
    let l = lower_chars(&c);
    if chars_eq_str(&l, "infiniband") || chars_eq_str(&l, "ib") {
        NetworkClass::Infiniband
    } else if chars_eq_str(&l, "fast") || chars_eq_str(&l, "ethernet") || chars_eq_str(&l, "datacenter") {
        NetworkClass::FastEthernet
    } else {
        NetworkClass::Consumer
    }
}

/// One GPU of a node as the fleet summary shows it.
pub struct GpuLine {
    pub model: String,
    pub tier: u8,
}

/// One node of the fleet as the summary shows it.
pub struct NodeLine {
    pub name: String,
    pub address: String,
    pub gpus: Vec<GpuLine>,
}

/// The name a network class is shown under.
pub open spec fn class_name(c: NetworkClass) -> Seq<char> {
    match c {
        NetworkClass::Infiniband => "Infiniband"@,
        NetworkClass::FastEthernet => "FastEthernet"@,
        NetworkClass::Consumer => "Consumer"@,
    }
}

pub open spec fn gpu_item(g: GpuLine) -> Seq<char> {
    g.model@ + " (Tier "@ + dec_string(g.tier as nat) + ")"@
}

/// The GPUs joined by `, `.
pub open spec fn gpu_join(gs: Seq<GpuLine>) -> Seq<char>
    decreases gs.len(),
{
    if gs.len() == 0 {
        Seq::empty()
    } else if gs.len() == 1 {
        gpu_item(gs[0])
    } else {
        gpu_join(gs.drop_last()) + ", "@ + gpu_item(gs.last())
    }
}

/// A node's GPUs, or `CPU-only` when it has none.
pub open spec fn gpu_text(gs: Seq<GpuLine>) -> Seq<char> {
    if gs.len() == 0 { "CPU-only"@ } else { gpu_join(gs) }
}

/// `node {i}: {name} @ {address}` and, indented on the next line, its GPUs.
pub open spec fn node_line(i: nat, n: NodeLine) -> Seq<char> {
    "node "@ + dec_string(i) + ": "@ + n.name@ + " @ "@ + n.address@ + "\n  "@ + gpu_text(n.gpus@) + "\n"@
}

pub open spec fn node_lines(ns: Seq<NodeLine>) -> Seq<char>
    decreases ns.len(),
{
    if ns.len() == 0 {
        Seq::empty()
    } else {
        node_lines(ns.drop_last()) + node_line((ns.len() - 1) as nat, ns.last())
    }
}

/// The `cameo fleet status` text: a block per node, then the network class
/// and whether distributed execution is viable on it.
pub open spec fn summary_text(ns: Seq<NodeLine>, network: NetworkClass, distributed: bool) -> Seq<char> {
    node_lines(ns) + "network: "@ + class_name(network) + " (distributed execution "@
        + (if distributed { "viable"@ } else { "bandwidth-bound; single-node fits only"@ }) + ")"@
}

fn gpu_text_exec(gs: &Vec<GpuLine>) -> (r: Vec<char>)
    ensures
        r@ == gpu_text(gs@),
{
    let mut r: Vec<char> = Vec::new();
    if gs.len() == 0 {
        push_str_chars(&mut r, "CPU-only");
        return r;
    }
    let mut i: usize = 0;
    while i < gs.len()
        invariant
            i <= gs@.len(),
            gs@.len() > 0,
            r@ == gpu_join(gs@.take(i as int)),
        decreases gs.len() - i,
    {
        let ghost t = gs@.take(i + 1);
        assert(t.drop_last() =~= gs@.take(i as int));
        assert(t.last() == gs@[i as int]);
        if i > 0 {
            push_str_chars(&mut r, ", ");
        }
        let g = &gs[i];
        let m = chars_of(g.model.as_str());
        push_chars(&mut r, &m);
        push_str_chars(&mut r, " (Tier ");
        let d = decimal_chars(g.tier as u64);
        push_chars(&mut r, &d);
        push_str_chars(&mut r, ")");
        proof {
            if i == 0 {
                assert(t.len() == 1 && t[0] == gs@[0]);
                assert(gpu_join(gs@.take(0)) == Seq::<char>::empty());
            }
        }
        assert(r@ =~= gpu_join(t));
        i += 1;
    }
    assert(gs@.take(gs@.len() as int) =~= gs@);
    r
}

/// Renders the fleet summary (see [`summary_text`]); `distributed` is
/// whether the network class supports distributed execution.
pub fn summarize(nodes: &[NodeLine], network: NetworkClass, distributed: bool) -> (r: String)
    ensures
        r@ == summary_text(nodes@, network, distributed),
{
    let mut out: Vec<char> = Vec::new();
    let mut i: usize = 0;
    while i < nodes.len()
        invariant
            i <= nodes@.len(),
            out@ == node_lines(nodes@.take(i as int)),
        decreases nodes.len() - i,
    {
        let ghost t = nodes@.take(i + 1);
        assert(t.drop_last() =~= nodes@.take(i as int));
        assert(t.last() == nodes@[i as int]);
        let node = &nodes[i];
        push_str_chars(&mut out, "node ");
        let d = decimal_chars(i as u64);
        push_chars(&mut out, &d);
        push_str_chars(&mut out, ": ");
        let name = chars_of(node.name.as_str());
        push_chars(&mut out, &name);
        push_str_chars(&mut out, " @ ");
        let addr = chars_of(node.address.as_str());
        push_chars(&mut out, &addr);
        push_str_chars(&mut out, "\n  ");
        let g = gpu_text_exec(&node.gpus);
        push_chars(&mut out, &g);
        push_str_chars(&mut out, "\n");
        assert(out@ =~= node_lines(t));
        i += 1;
    }
    assert(nodes@.take(nodes@.len() as int) =~= nodes@);
    push_str_chars(&mut out, "network: ");
    match network {
        NetworkClass::Infiniband => push_str_chars(&mut out, "Infiniband"),
        NetworkClass::FastEthernet => push_str_chars(&mut out, "FastEthernet"),
        NetworkClass::Consumer => push_str_chars(&mut out, "Consumer"),
    }
    push_str_chars(&mut out, " (distributed execution ");
    if distributed {
        push_str_chars(&mut out, "viable");
    } else {
        push_str_chars(&mut out, "bandwidth-bound; single-node fits only");
    }
    push_str_chars(&mut out, ")");
    assert(out@ =~= summary_text(nodes@, network, distributed));
    string_of(&out)
}

} // verus!
