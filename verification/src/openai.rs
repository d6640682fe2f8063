//! The OpenAI feature matrix of the `/v1` gateway. The node advertises a
//! precise subset; a request using anything else is refused before routing,
//! so a backend cannot silently ignore a parameter and return a plausible
//! answer.
use vstd::prelude::*;
use crate::json::{as_str, as_u64, member, Json};
use crate::text::{chars_eq_str, chars_of, dec_string, decimal_chars, push_chars, push_str_chars, string_of};

verus! {

#[derive(Debug, Clone, Copy, PartialEq, Eq, Structural)]
pub enum GatewayRoute {
    ChatCompletions,
    Completions,
    Embeddings,
}

pub open spec fn route_spec(rest: Seq<Seq<char>>) -> Option<GatewayRoute> {
    if rest == seq!["chat"@, "completions"@] {
        Some(GatewayRoute::ChatCompletions)
    } else if rest == seq!["completions"@] {
        Some(GatewayRoute::Completions)
    } else if rest == seq!["embeddings"@] {
        Some(GatewayRoute::Embeddings)
    } else {
        None
    }
}

pub open spec fn strs_view(v: Seq<&str>) -> Seq<Seq<char>> {
    v.map_values(|s: &str| s@)
}

/// The gateway route of the path segments after `/v1`.
pub fn route_from_path(rest: &[&str]) -> (r: Option<GatewayRoute>)
    ensures
        r == route_spec(strs_view(rest@)),
{
    let ghost v = strs_view(rest@);
    if rest.len() == 2 {
        let a = chars_of(rest[0]);
        let b = chars_of(rest[1]);
        if chars_eq_str(&a, "chat") && chars_eq_str(&b, "completions") {
            assert(strs_view(rest@) =~= seq!["chat"@, "completions"@]);
            return Some(GatewayRoute::ChatCompletions);
        }
        proof {
            if strs_view(rest@) == seq!["chat"@, "completions"@] {
                assert(strs_view(rest@)[0] == rest@[0]@);
            }
        }
    } else if rest.len() == 1 {
        let a = chars_of(rest[0]);
        assert(strs_view(rest@)[0] == rest@[0]@);
        if chars_eq_str(&a, "completions") {
            assert(strs_view(rest@) =~= seq!["completions"@]);
            return Some(GatewayRoute::Completions);
        }
        if chars_eq_str(&a, "embeddings") {
            assert(strs_view(rest@) =~= seq!["embeddings"@]);
            return Some(GatewayRoute::Embeddings);
        }
    }
    proof {
        if strs_view(rest@) == seq!["chat"@, "completions"@] || strs_view(rest@) == seq!["completions"@] || strs_view(rest@) == seq!["embeddings"@] {
            assert(strs_view(rest@).len() == rest@.len());
            assert(strs_view(rest@)[0] == rest@[0]@);
        }
    }
    None
}

/// Why a request body was refused: the message and the offending parameter.
#[derive(Debug, Clone, PartialEq, Eq)]
pub struct Unsupported {
    pub message: String,
    pub param: String,
}

pub open spec fn tool_choice_requests_tools(body: Json) -> bool {
    match member(body, "tool_choice"@) {
        None => false,
        Some(Json::Null) => false,
        Some(Json::String(c)) => c@ != "none"@,
        Some(_) => true,
    }
}

/// A content part that is an image.
pub open spec fn image_part(part: Json) -> bool {
    as_str(member(part, "type"@)) == Some("image_url"@) || member(part, "image_url"@) is Some
}

/// The items of a value that is an array.
pub open spec fn array_items(v: Option<Json>) -> Option<Seq<Json>> {
    match v {
        Some(Json::Array(a)) => Some(a@),
        _ => None,
    }
}

/// A message whose content is a list holding an image part.
pub open spec fn image_message(m: Json) -> bool {
    match array_items(member(m, "content"@)) {
        Some(parts) => exists|j: int| 0 <= j < parts.len() && image_part(#[trigger] parts[j]),
        None => false,
    }
}

/// The body's `messages` include image or other multimodal input.
pub open spec fn multimodal(body: Json) -> bool {
    match array_items(member(body, "messages"@)) {
        Some(ms) => exists|i: int| 0 <= i < ms.len() && image_message(#[trigger] ms[i]),
        None => false,
    }
}

pub open spec fn structured_format(body: Json) -> bool {
    match member(body, "response_format"@) {
        Some(rf) => as_str(member(rf, "type"@)) == Some("json_schema"@),
        None => false,
    }
}

/// The refusal for a body on `route`, as (message, parameter); `None` when
/// the body may continue to model routing.
pub open spec fn unsupported_spec(route: GatewayRoute, body: Json) -> Option<(Seq<char>, Seq<char>)> {
    if member(body, "tools"@) is Some || member(body, "functions"@) is Some || tool_choice_requests_tools(body) {
        Some(("native tool calls are not available; the agent harness owns tool orchestration"@, "tools"@))
    } else if member(body, "logprobs"@) is Some || member(body, "top_logprobs"@) is Some {
        Some(("logprobs are not advertised by this node"@, "logprobs"@))
    } else if member(body, "logit_bias"@) is Some {
        Some(("logit_bias is not advertised by this node"@, "logit_bias"@))
    } else if as_u64(member(body, "n"@)) matches Some(n) && n != 1 {
        Some(("only n=1 completions are advertised"@, "n"@))
    } else if multimodal(body) {
        Some(("image and multimodal inputs are not advertised by this node"@, "messages"@))
    } else if structured_format(body) {
        Some(("structured json_schema response_format is not advertised"@, "response_format"@))
    } else {
        match route {
            GatewayRoute::Embeddings => if as_str(member(body, "encoding_format"@)) matches Some(f) && f != "float"@ {
                Some(("only float embedding encoding is advertised"@, "encoding_format"@))
            } else {
                None
            },
            _ => if member(body, "best_of"@) is Some || member(body, "echo"@) is Some {
                Some(("best_of and echo are not advertised by this node"@, "best_of"@))
            } else {
                None
            },
        }
    }
}

fn refusal(message: &str, param: &str) -> (r: Option<Unsupported>)
    ensures
        r matches Some(u) && u.message@ == message@ && u.param@ == param@,
{
    Some(Unsupported { message: String::from_str(message), param: String::from_str(param) })
}

fn is_text(v: Option<&Json>, lit: &str) -> (r: bool)
    ensures
        r == (as_str(match v { Some(j) => Some(*j), None => None }) == Some(lit@)),
{
    match v {
        Some(Json::String(s)) => {
            let c = chars_of(s.as_str());
            chars_eq_str(&c, lit)
        },
        _ => false,
    }
}

fn image_message_exec(m: &Json) -> (r: bool)
    ensures
        r == image_message(*m),
{
    match m.get("content") {
        Some(Json::Array(parts)) => {
            let mut j: usize = 0;
            while j < parts.len()
                invariant
                    array_items(member(*m, "content"@)) == Some(parts@),
                    j <= parts@.len(),
                    forall|k: int| 0 <= k < j ==> !image_part(#[trigger] parts@[k]),
                decreases parts.len() - j,
            {
                let p = &parts[j];
                if is_text(p.get("type"), "image_url") || p.get("image_url").is_some() {
                    assert(image_part(parts@[j as int]));
                    assert(exists|k: int| 0 <= k < parts@.len() && image_part(#[trigger] parts@[k]));
                    let ghost items = array_items(member(*m, "content"@));
                    assert(items == Some(parts@));
                    assert(items.unwrap() == parts@);
                    assert(image_message(*m));
                    return true;
                }
                j += 1;
            }
            false
        },
        _ => false,
    }
}

fn multimodal_exec(body: &Json) -> (r: bool)
    ensures
        r == multimodal(*body),
{
    match body.get("messages") {
        Some(Json::Array(ms)) => {
            let mut i: usize = 0;
            while i < ms.len()
                invariant
                    array_items(member(*body, "messages"@)) == Some(ms@),
                    i <= ms@.len(),
                    forall|k: int| 0 <= k < i ==> !image_message(#[trigger] ms@[k]),
                decreases ms.len() - i,
            {
                if image_message_exec(&ms[i]) {
                    assert(image_message(ms@[i as int]));
                    assert(exists|k: int| 0 <= k < ms@.len() && image_message(#[trigger] ms@[k]));
                    let ghost items = array_items(member(*body, "messages"@));
                    assert(items == Some(ms@));
                    assert(items.unwrap() == ms@);
                    assert(multimodal(*body));
                    return true;
                }
                i += 1;
            }
            false
        },
        _ => false,
    }
}

/// Refuses parameters this node does not implement (see
/// [`unsupported_spec`]).
pub fn reject_unsupported(route: GatewayRoute, body: &Json) -> (r: Option<Unsupported>)
    ensures
        match r {
            None => unsupported_spec(route, *body) is None,
            Some(u) => unsupported_spec(route, *body) == Some((u.message@, u.param@)),
        },
{
    let tool_choice = match body.get("tool_choice") {
        None => false,
        Some(Json::Null) => false,
        Some(Json::String(c)) => {
            let cc = chars_of(c.as_str());
            !chars_eq_str(&cc, "none")
        },
        Some(_) => true,
    };
    if body.get("tools").is_some() || body.get("functions").is_some() || tool_choice {
        return refusal("native tool calls are not available; the agent harness owns tool orchestration", "tools");
    }
    if body.get("logprobs").is_some() || body.get("top_logprobs").is_some() {
        return refusal("logprobs are not advertised by this node", "logprobs");
    }
    if body.get("logit_bias").is_some() {
        return refusal("logit_bias is not advertised by this node", "logit_bias");
    }
    let n = match body.get("n") {
        Some(v) => v.as_u64(),
        None => None,
    };
    match n {
        Some(n) => if n != 1 {
            return refusal("only n=1 completions are advertised", "n");
        },
        None => {},
    }
    if multimodal_exec(body) {
        return refusal("image and multimodal inputs are not advertised by this node", "messages");
    }
    let structured = match body.get("response_format") {
        Some(rf) => is_text(rf.get("type"), "json_schema"),
        None => false,
    };
    if structured {
        return refusal("structured json_schema response_format is not advertised", "response_format");
    }
    match route {
        GatewayRoute::Embeddings => {
            match body.get("encoding_format") {
                Some(Json::String(f)) => {
                    let fc = chars_of(f.as_str());
                    if !chars_eq_str(&fc, "float") {
                        return refusal("only float embedding encoding is advertised", "encoding_format");
                    }
                },
                _ => {},
            }
            None
        },
        _ => {
            if body.get("best_of").is_some() || body.get("echo").is_some() {
                return refusal("best_of and echo are not advertised by this node", "best_of");
            }
            None
        },
    }
}

/// The requested completion length: `max_completion_tokens` when present,
/// else `max_tokens`, read as a non-negative integer.
pub open spec fn requested_tokens(body: Json) -> Option<u64> {
    match member(body, "max_completion_tokens"@) {
        Some(v) => as_u64(Some(v)),
        None => as_u64(member(body, "max_tokens"@)),
    }
}

/// Refuses a completion longer than the served context window, when that is
/// known.
pub fn reject_token_ceiling(body: &Json, context_tokens: Option<u32>) -> (r: Option<Unsupported>)
    ensures
        match (context_tokens, requested_tokens(*body)) {
            (Some(c), Some(n)) => if n > c {
                r matches Some(u) && u.param@ == "max_tokens"@ && u.message@ == "max_tokens "@ + dec_string(n as nat) + " exceeds the served context window "@ + dec_string(c as nat)
            } else {
                r is None
            },
            _ => r is None,
        },
{
    let context = match context_tokens {
        None => return None,
        Some(c) => c,
    };
    let requested = match body.get("max_completion_tokens") {
        Some(v) => v.as_u64(),
        None => match body.get("max_tokens") {
            Some(v) => v.as_u64(),
            None => None,
        },
    };
    let requested = match requested {
        None => return None,
        Some(n) => n,
    };
    if requested > context as u64 {
        let mut m = chars_of("max_tokens ");
        let a = decimal_chars(requested);
        push_chars(&mut m, &a);
        push_str_chars(&mut m, " exceeds the served context window ");
        let b = decimal_chars(context as u64);
        push_chars(&mut m, &b);
        return Some(Unsupported { message: string_of(&m), param: String::from_str("max_tokens") });
    }
    None
}

} // verus!
