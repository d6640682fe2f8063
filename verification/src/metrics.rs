//! The Prometheus text exposition of the supervisor: one gauge for the
//! daemon itself, the count of tracked endpoints, and per endpoint its
//! up/ready flags (with identifying labels), restarts, uptime and VRAM.
//! Each family's HELP and TYPE lines appear exactly once, before its samples.
use vstd::prelude::*;
use crate::supervisor::{esc, esc_spec};
use crate::text::{chars_of, dec_string, decimal_chars, push_chars, push_str_chars, string_of};

verus! {

/// What an endpoint is doing, as its label reports it.
#[derive(Clone, Copy, Debug, PartialEq, Eq)]
pub enum EndpointState {
    Failed,
    Running,
    Starting,
    Exited,
}

/// A failure wins; otherwise a live process is running once ready and
/// starting before; without a process the endpoint has exited.
pub open spec fn endpoint_state_spec(failed: bool, has_process: bool, ready: bool) -> EndpointState {
    if failed {
        EndpointState::Failed
    } else if has_process && ready {
        EndpointState::Running
    } else if has_process {
        EndpointState::Starting
    } else {
        EndpointState::Exited
    }
}

pub fn endpoint_state(failed: bool, has_process: bool, ready: bool) -> (r: EndpointState)
    ensures
        r == endpoint_state_spec(failed, has_process, ready),
{
    if failed {
        EndpointState::Failed
    } else if has_process && ready {
        EndpointState::Running
    } else if has_process {
        EndpointState::Starting
    } else {
        EndpointState::Exited
    }
}

pub open spec fn state_label_spec(s: EndpointState) -> Seq<char> {
    match s {
        EndpointState::Failed => "failed"@,
        EndpointState::Running => "running"@,
        EndpointState::Starting => "starting"@,
        EndpointState::Exited => "exited"@,
    }
}

impl EndpointState {
    pub fn label(&self) -> (r: &'static str)
        ensures
            r@ == state_label_spec(*self),
    {
        match self {
            EndpointState::Failed => "failed",
            EndpointState::Running => "running",
            EndpointState::Starting => "starting",
            EndpointState::Exited => "exited",
        }
    }
}

/// One endpoint's facts at the moment of the scrape.
pub struct EndpointSample {
    pub id: String,
    pub model: String,
    pub port: u16,
    pub backend: String,
    pub state: EndpointState,
    pub running: bool,
    pub ready: bool,
    pub restarts: u64,
    pub uptime_secs: u64,
    pub vram_bytes: u64,
}

pub open spec fn flag_spec(b: bool) -> Seq<char> {
    if b { "1"@ } else { "0"@ }
}

/// `id="..",model="..",port="..",backend="..",state=".."`, values escaped.
pub open spec fn labels_spec(s: EndpointSample) -> Seq<char> {
    "id=\""@ + esc_spec(s.id@) + "\",model=\""@ + esc_spec(s.model@) + "\",port=\""@
        + dec_string(s.port as nat) + "\",backend=\""@ + esc_spec(s.backend@) + "\",state=\""@
        + state_label_spec(s.state) + "\""@
}

/// `family{labels} value\n`.
pub open spec fn sample_line(family: Seq<char>, labels: Seq<char>, value: Seq<char>) -> Seq<char> {
    family + "{"@ + labels + "} "@ + value + "\n"@
}

/// The up and ready samples of each endpoint, in order.
pub open spec fn up_lines(rows: Seq<EndpointSample>) -> Seq<char>
    decreases rows.len(),
{
    if rows.len() == 0 {
        Seq::empty()
    } else {
        let s = rows.last();
        up_lines(rows.drop_last()) + sample_line("cameo_endpoint_up"@, labels_spec(s), flag_spec(s.running))
            + sample_line("cameo_endpoint_ready"@, labels_spec(s), flag_spec(s.ready))
    }
}

/// Which per-endpoint counter a family reports.
pub enum Counter {
    Restarts,
    Uptime,
    Vram,
}

pub open spec fn counter_value(s: EndpointSample, c: Counter) -> nat {
    match c {
        Counter::Restarts => s.restarts as nat,
        Counter::Uptime => s.uptime_secs as nat,
        Counter::Vram => s.vram_bytes as nat,
    }
}

pub open spec fn counter_family(c: Counter) -> Seq<char> {
    match c {
        Counter::Restarts => "cameo_endpoint_restarts_total"@,
        Counter::Uptime => "cameo_endpoint_uptime_seconds"@,
        Counter::Vram => "cameo_endpoint_vram_bytes"@,
    }
}

/// One sample per endpoint, labelled by its escaped id only.
pub open spec fn counter_lines(rows: Seq<EndpointSample>, c: Counter) -> Seq<char>
    decreases rows.len(),
{
    if rows.len() == 0 {
        Seq::empty()
    } else {
        let s = rows.last();
        counter_lines(rows.drop_last(), c) + sample_line(counter_family(c), "id=\""@ + esc_spec(s.id@) + "\""@,
            dec_string(counter_value(s, c)))
    }
}

/// The whole exposition for `rows`.
pub open spec fn metrics_text(rows: Seq<EndpointSample>) -> Seq<char> {
    "# HELP cameo_up 1 if the control-plane daemon is serving.\n"@
        + "# TYPE cameo_up gauge\ncameo_up 1\n"@
        + "# HELP cameo_endpoints Number of tracked model endpoints.\n"@
        + "# TYPE cameo_endpoints gauge\ncameo_endpoints "@ + dec_string(rows.len()) + "\n"@
        + "# HELP cameo_endpoint_up 1 if the endpoint's process is running.\n"@
        + "# TYPE cameo_endpoint_up gauge\n"@
        + "# HELP cameo_endpoint_ready 1 if the endpoint passed its health probe.\n"@
        + "# TYPE cameo_endpoint_ready gauge\n"@
        + up_lines(rows)
        + "# HELP cameo_endpoint_restarts_total Auto-restarts since creation.\n"@
        + "# TYPE cameo_endpoint_restarts_total counter\n"@
        + counter_lines(rows, Counter::Restarts)
        + "# HELP cameo_endpoint_uptime_seconds Seconds since the current process started.\n"@
        + "# TYPE cameo_endpoint_uptime_seconds gauge\n"@
        + counter_lines(rows, Counter::Uptime)
        + "# HELP cameo_endpoint_vram_bytes Estimated VRAM the endpoint holds.\n"@
        + "# TYPE cameo_endpoint_vram_bytes gauge\n"@
        + counter_lines(rows, Counter::Vram)
}

fn push_escaped(out: &mut Vec<char>, s: &str)
    ensures
        final(out)@ == old(out)@ + esc_spec(s@),
{
    let e = esc(s);
    let c = chars_of(e.as_str());
    push_chars(out, &c);
}

fn push_decimal(out: &mut Vec<char>, n: u64)
    ensures
        final(out)@ == old(out)@ + dec_string(n as nat),
{
    let d = decimal_chars(n);
    push_chars(out, &d);
}

fn labels(s: &EndpointSample) -> (r: Vec<char>)
    ensures
        r@ == labels_spec(*s),
{
    let mut r: Vec<char> = Vec::new();
    push_str_chars(&mut r, "id=\"");
    push_escaped(&mut r, s.id.as_str());
    push_str_chars(&mut r, "\",model=\"");
    push_escaped(&mut r, s.model.as_str());
    push_str_chars(&mut r, "\",port=\"");
    push_decimal(&mut r, s.port as u64);
    push_str_chars(&mut r, "\",backend=\"");
    push_escaped(&mut r, s.backend.as_str());
    push_str_chars(&mut r, "\",state=\"");
    push_str_chars(&mut r, s.state.label());
    push_str_chars(&mut r, "\"");
    assert(r@ =~= labels_spec(*s));
    r
}

fn push_sample(out: &mut Vec<char>, family: &str, labels: &[char], value: &[char])
    ensures
        final(out)@ == old(out)@ + sample_line(family@, labels@, value@),
{
    let ghost start = out@;
    push_str_chars(out, family);
    push_str_chars(out, "{");
    push_chars(out, labels);
    push_str_chars(out, "} ");
    push_chars(out, value);
    push_str_chars(out, "\n");
    assert(out@ =~= start + sample_line(family@, labels@, value@));
}

fn counter_sample(out: &mut Vec<char>, s: &EndpointSample, c: Counter)
    ensures
        final(out)@ == old(out)@ + sample_line(counter_family(c), "id=\""@ + esc_spec(s.id@) + "\""@,
            dec_string(counter_value(*s, c))),
{
    let mut id_label: Vec<char> = Vec::new();
    push_str_chars(&mut id_label, "id=\"");
    push_escaped(&mut id_label, s.id.as_str());
    push_str_chars(&mut id_label, "\"");
    assert(id_label@ =~= "id=\""@ + esc_spec(s.id@) + "\""@);
    match c {
        Counter::Restarts => {
            let v = decimal_chars(s.restarts);
            push_sample(out, "cameo_endpoint_restarts_total", &id_label, &v);
        },
        Counter::Uptime => {
            let v = decimal_chars(s.uptime_secs);
            push_sample(out, "cameo_endpoint_uptime_seconds", &id_label, &v);
        },
        Counter::Vram => {
            let v = decimal_chars(s.vram_bytes);
            push_sample(out, "cameo_endpoint_vram_bytes", &id_label, &v);
        },
    }
}

/// Renders the exposition for the endpoints in `rows`, in their order.
pub fn render_metrics(rows: &[EndpointSample]) -> (r: String)
    ensures
        r@ == metrics_text(rows@),
{
    let mut up: Vec<char> = Vec::new();
    let mut restarts: Vec<char> = Vec::new();
    let mut uptime: Vec<char> = Vec::new();
    let mut vram: Vec<char> = Vec::new();
    let mut i: usize = 0;
    while i < rows.len()
        invariant
            i <= rows@.len(),
            up@ == up_lines(rows@.take(i as int)),
            restarts@ == counter_lines(rows@.take(i as int), Counter::Restarts),
            uptime@ == counter_lines(rows@.take(i as int), Counter::Uptime),
            vram@ == counter_lines(rows@.take(i as int), Counter::Vram),
        decreases rows@.len() - i,
    {
        let s = &rows[i];
        let ghost before = rows@.take(i as int);
        let ghost after = rows@.take(i + 1);
        assert(after.drop_last() =~= before);
        assert(after.last() == *s);
        let l = labels(s);
        let running: &str = if s.running { "1" } else { "0" };
        let ready: &str = if s.ready { "1" } else { "0" };
        let rv = chars_of(running);
        let dv = chars_of(ready);
        push_sample(&mut up, "cameo_endpoint_up", &l, &rv);
        push_sample(&mut up, "cameo_endpoint_ready", &l, &dv);
        counter_sample(&mut restarts, s, Counter::Restarts);
        counter_sample(&mut uptime, s, Counter::Uptime);
        counter_sample(&mut vram, s, Counter::Vram);
        i += 1;
    }
    assert(rows@.take(rows@.len() as int) =~= rows@);
    let mut out: Vec<char> = Vec::new();
    push_str_chars(&mut out, "# HELP cameo_up 1 if the control-plane daemon is serving.\n");
    push_str_chars(&mut out, "# TYPE cameo_up gauge\ncameo_up 1\n");
    push_str_chars(&mut out, "# HELP cameo_endpoints Number of tracked model endpoints.\n");
    push_str_chars(&mut out, "# TYPE cameo_endpoints gauge\ncameo_endpoints ");
    push_decimal(&mut out, rows.len() as u64);
    push_str_chars(&mut out, "\n");
    push_str_chars(&mut out, "# HELP cameo_endpoint_up 1 if the endpoint's process is running.\n");
    push_str_chars(&mut out, "# TYPE cameo_endpoint_up gauge\n");
    push_str_chars(&mut out, "# HELP cameo_endpoint_ready 1 if the endpoint passed its health probe.\n");
    push_str_chars(&mut out, "# TYPE cameo_endpoint_ready gauge\n");
    push_chars(&mut out, &up);
    push_str_chars(&mut out, "# HELP cameo_endpoint_restarts_total Auto-restarts since creation.\n");
    push_str_chars(&mut out, "# TYPE cameo_endpoint_restarts_total counter\n");
    push_chars(&mut out, &restarts);
    push_str_chars(&mut out, "# HELP cameo_endpoint_uptime_seconds Seconds since the current process started.\n");
    push_str_chars(&mut out, "# TYPE cameo_endpoint_uptime_seconds gauge\n");
    push_chars(&mut out, &uptime);
    push_str_chars(&mut out, "# HELP cameo_endpoint_vram_bytes Estimated VRAM the endpoint holds.\n");
    push_str_chars(&mut out, "# TYPE cameo_endpoint_vram_bytes gauge\n");
    push_chars(&mut out, &vram);
    assert(out@ =~= metrics_text(rows@));
    string_of(&out)
}

} // verus!
