//! Terminal styling for the command-line client: ANSI colour codes around a
//! text when colour is enabled (the caller decides that from the terminal and
//! the `NO_COLOR` conventions), the text unchanged otherwise.
use vstd::prelude::*;
use crate::text::{chars_of, push_str_chars, string_of};

verus! {

/// `text` wrapped in the SGR sequence `code` when `color` is set.
pub open spec fn paint_spec(code: Seq<char>, text: Seq<char>, color: bool) -> Seq<char> {
    if color {
        "\x1b["@ + code + "m"@ + text + "\x1b[0m"@
    } else {
        text
    }
}

pub fn paint(code: &str, s: &str, color: bool) -> (r: String)
    ensures
        r@ == paint_spec(code@, s@, color),
{
    if color {
        let mut v = chars_of("\x1b[");
        push_str_chars(&mut v, code);
        push_str_chars(&mut v, "m");
        push_str_chars(&mut v, s);
        push_str_chars(&mut v, "\x1b[0m");
        string_of(&v)
    } else {
        String::from_str(s)
    }
}

/// The signature coral accent.
pub fn accent(s: &str, color: bool) -> (r: String)
    ensures
        r@ == paint_spec("38;5;209"@, s@, color),
{
    paint("38;5;209", s, color)
}

pub fn bold(s: &str, color: bool) -> (r: String)
    ensures
        r@ == paint_spec("1"@, s@, color),
{
    paint("1", s, color)
}

pub fn dim(s: &str, color: bool) -> (r: String)
    ensures
        r@ == paint_spec("2"@, s@, color),
{
    paint("2", s, color)
}

/// The colour of a GPU tier: 1 green, 2 amber, anything else cyan.
pub open spec fn tier_code(n: u8) -> Seq<char> {
    if n == 1 { "1;32"@ } else if n == 2 { "1;33"@ } else { "1;36"@ }
}

pub fn tier(n: u8, s: &str, color: bool) -> (r: String)
    ensures
        r@ == paint_spec(tier_code(n), s@, color),
{
    let code = match n {
        1 => "1;32",
        2 => "1;33",
        _ => "1;36",
    };
    paint(code, s, color)
}

pub open spec fn banner_art() -> Seq<char> {
    " ██████╗ █████╗ ███╗   ███╗███████╗ ██████╗\n██╔════╝██╔══██╗████╗ ████║██╔════╝██╔═══██╗\n██║     ███████║██╔████╔██║█████╗  ██║   ██║\n██║     ██╔══██║██║╚██╔╝██║██╔══╝  ██║   ██║\n╚██████╗██║  ██║██║ ╚═╝ ██║███████╗╚██████╔╝\n ╚═════╝╚═╝  ╚═╝╚═╝     ╚═╝╚══════╝ ╚═════╝"@
}

/// The wordmark and tagline.
pub fn banner(color: bool) -> (r: String)
    ensures
        r@ == paint_spec("38;5;209"@, banner_art(), color) + "\n  "@
            + paint_spec("2"@, "any AMD card → a working LLM box"@, color) + "\n"@,
{
    let art = accent(" ██████╗ █████╗ ███╗   ███╗███████╗ ██████╗\n██╔════╝██╔══██╗████╗ ████║██╔════╝██╔═══██╗\n██║     ███████║██╔████╔██║█████╗  ██║   ██║\n██║     ██╔══██║██║╚██╔╝██║██╔══╝  ██║   ██║\n╚██████╗██║  ██║██║ ╚═╝ ██║███████╗╚██████╔╝\n ╚═════╝╚═╝  ╚═╝╚═╝     ╚═╝╚══════╝ ╚═════╝", color);
    let tag = dim("any AMD card → a working LLM box", color);
    let mut v = chars_of(art.as_str());
    push_str_chars(&mut v, "\n  ");
    push_str_chars(&mut v, tag.as_str());
    push_str_chars(&mut v, "\n");
    string_of(&v)
}

} // verus!
