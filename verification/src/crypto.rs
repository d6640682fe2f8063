//! Digests, operating-system randomness and their hexadecimal spelling.
use vstd::prelude::*;
use sha2::Digest;
use crate::text::{all_ascii_hexdigits, string_of};

verus! {

/// The SHA-256 digest of a byte string.
pub uninterp spec fn sha256(bytes: Seq<u8>) -> Seq<u8>;

/// `sha2::Sha256::digest`: the 32-byte SHA-256 digest of `bytes`.
#[verifier::external_body]
pub(crate) fn sha256_digest(bytes: &[u8]) -> (r: [u8; 32])
    ensures
        r@ == sha256(bytes@),
{
    sha2::Sha256::digest(bytes).into()
}

/// `len` bytes from the operating system's random source (`getrandom::fill`),
/// or the source's error, spelled out. Of the bytes only their number is
/// promised.
#[verifier::external_body]
pub(crate) fn os_random(len: usize) -> (r: Result<Vec<u8>, String>)
    ensures
        r matches Ok(v) ==> v@.len() == len,
{
    let mut bytes = vec![0u8; len];
    match getrandom::fill(&mut bytes) {
        Ok(()) => Ok(bytes),
        Err(error) => Err(format!("{error}")),
    }
}

/// The lower-case hex digit for `n < 16`.
pub open spec fn hex_digit_char(n: nat) -> char {
    if n < 10 {
        ((n + 48) as u32) as char
    } else {
        ((n + 87) as u32) as char
    }
}

/// Lower-case hexadecimal, two digits per byte.
pub open spec fn hex_encode(b: Seq<u8>) -> Seq<char>
    decreases b.len(),
{
    if b.len() == 0 {
        Seq::empty()
    } else {
        hex_encode(b.drop_last()) + seq![hex_digit_char((b.last() / 16) as nat), hex_digit_char((b.last() % 16) as nat)]
    }
}

fn hex_digit_exec(n: u8) -> (c: char)
    requires
        n < 16,
    ensures
        c == hex_digit_char(n as nat),
{
    if n < 10 {
        (n + 48) as char
    } else {
        (n + 87) as char
    }
}

pub proof fn lemma_hex_encode_len(b: Seq<u8>)
    ensures
        hex_encode(b).len() == 2 * b.len(),
        all_ascii_hexdigits(hex_encode(b)),
    decreases b.len(),
{
    if b.len() > 0 {
        lemma_hex_encode_len(b.drop_last());
        let h = hex_encode(b);
        let p = hex_encode(b.drop_last());
        assert forall|i: int| 0 <= i < h.len() implies crate::text::is_ascii_hexdigit(#[trigger] h[i]) by {
            if i < p.len() {
                assert(h[i] == p[i]);
            }
        }
    }
}

/// Lower-case hexadecimal spelling of a byte string.
pub fn hex(bytes: &[u8]) -> (s: String)
    ensures
        s@ == hex_encode(bytes@),
{
    let n = bytes.len();
    let mut v: Vec<char> = Vec::new();
    let mut i: usize = 0;
    while i < n
        invariant
            i <= n,
            n == bytes@.len(),
            v@ == hex_encode(bytes@.take(i as int)),
        decreases n - i,
    {
        let b = bytes[i];
        v.push(hex_digit_exec(b / 16));
        v.push(hex_digit_exec(b % 16));
        assert(bytes@.take(i + 1).drop_last() =~= bytes@.take(i as int));
        assert(v@ =~= hex_encode(bytes@.take(i + 1)));
        i += 1;
    }
    assert(bytes@.take(n as int) =~= bytes@);
    string_of(&v)
}

/// The SHA-256 digest of `bytes`, in hexadecimal.
pub fn sha256_hex(bytes: &[u8]) -> (s: String)
    ensures
        s@ == hex_encode(sha256(bytes@)),
{
    let d = sha256_digest(bytes);
    hex(&d)
}

/// Two digests name the same bytes when their hex agrees, ASCII case ignored.
pub open spec fn same_digest(a: Seq<char>, b: Seq<char>) -> bool {
    crate::text::lower_seq(a) == crate::text::lower_seq(b)
}

pub fn digest_matches(a: &str, b: &str) -> (r: bool)
    ensures
        r == same_digest(a@, b@),
{
    let la = crate::text::lower_chars(&crate::text::chars_of(a));
    let lb = crate::text::lower_chars(&crate::text::chars_of(b));
    crate::text::chars_eq(&la, &lb)
}

/// A model file may start only when its digest agrees with the one the
/// request pins and with the curated alias's, where either is given.
pub fn model_digest_ok(actual: &str, requested: Option<&str>, curated: Option<&str>) -> (r: bool)
    ensures
        r == ((match requested { Some(x) => same_digest(x@, actual@), None => true })
            && (match curated { Some(x) => same_digest(x@, actual@), None => true })),
{
    let a = match requested {
        Some(x) => digest_matches(x, actual),
        None => true,
    };
    let b = match curated {
        Some(x) => digest_matches(x, actual),
        None => true,
    };
    a && b
}

} // verus!
