//! The pinned Knossos release: checking the lock that names it, choosing the
//! asset for a platform, and deriving every path an install touches before
//! anything touches disk. Paths are Unix paths, kept as strings.
use vstd::prelude::*;
use crate::text::{
    all_ascii_hexdigits, char_is_hexdigit, chars_eq, chars_eq_str, chars_of, copy_range,
    is_ascii_hexdigit, push_chars, push_str_chars, string_of,
};

verus! {

/// One release asset: where it is downloaded from, its digest and size, and
/// the path of the executable inside the archive.
pub struct Asset {
    pub url: String,
    pub sha256: String,
    pub size: u64,
    pub binary: String,
}

/// The pinned release, with one asset per platform key, in key order.
pub struct Lock {
    pub schema: String,
    pub version: String,
    pub tag: String,
    pub repository: String,
    pub assets: Vec<(String, Asset)>,
}

/// Everything an install will do.
pub struct Plan {
    pub version: String,
    pub url: String,
    pub sha256: String,
    pub size: u64,
    pub archive: String,
    pub extract_dir: String,
    pub binary: String,
    pub link: Option<String>,
}

pub open spec fn sha_ok(s: Seq<char>) -> bool {
    s.len() == 64 && all_ascii_hexdigits(s)
}

/// `s[i..]` starts a `..` component.
pub open spec fn dotdot_at(p: Seq<char>, i: int) -> bool {
    0 <= i && i + 1 < p.len() && (i == 0 || p[i - 1] == '/') && p[i] == '.' && p[i + 1] == '.'
        && (i + 2 == p.len() || p[i + 2] == '/')
}

/// A relative path made only of normal components, as `Path::components`
/// reads it on Unix: no root, no leading `.` component, no `..` component.
pub open spec fn safe_relative_path(p: Seq<char>) -> bool {
    !(p.len() > 0 && p[0] == '/')
        && !(p.len() > 0 && p[0] == '.' && (p.len() == 1 || p[1] == '/'))
        && !(exists|i: int| #[trigger] dotdot_at(p, i))
}

pub open spec fn asset_error(key: Seq<char>, asset: Asset) -> Option<Seq<char>> {
    if !sha_ok(asset.sha256@) {
        Some("lock asset "@ + key + " has an invalid sha256"@)
    } else if !(asset.url@.len() >= 19 && asset.url@.take(19) == "https://github.com/"@) {
        Some("lock asset "@ + key + " must be an https://github.com/ release URL"@)
    } else if !safe_relative_path(asset.binary@) {
        Some("lock asset "@ + key + " names an unsafe binary path"@)
    } else {
        None
    }
}

fn all_hex(s: &[char]) -> (r: bool)
    ensures
        r == all_ascii_hexdigits(s@),
{
    let mut i: usize = 0;
    while i < s.len()
        invariant
            i <= s@.len(),
            forall|j: int| 0 <= j < i ==> is_ascii_hexdigit(#[trigger] s@[j]),
        decreases s.len() - i,
    {
        if !char_is_hexdigit(s[i]) {
            return false;
        }
        i += 1;
    }
    true
}

fn safe_path_exec(p: &[char]) -> (r: bool)
    ensures
        r == safe_relative_path(p@),
{
    let n = p.len();
    if n > 0 && p[0] == '/' {
        return false;
    }
    if n > 0 && p[0] == '.' && (n == 1 || p[1] == '/') {
        return false;
    }
    let mut i: usize = 0;
    while i < n
        invariant
            i <= n,
            n == p@.len(),
            forall|j: int| 0 <= j < i ==> !#[trigger] dotdot_at(p@, j),
        decreases n - i,
    {
        if i + 1 < n && (i == 0 || p[i - 1] == '/') && p[i] == '.' && p[i + 1] == '.'
            && (i + 2 == n || p[i + 2] == '/') {
            assert(dotdot_at(p@, i as int));
            return false;
        }
        i += 1;
    }
    assert forall|j: int| !#[trigger] dotdot_at(p@, j) by {
        if 0 <= j < n {
        }
    }
    true
}

fn lock_message(key: &str, tail: &str) -> (r: String)
    ensures
        r@ == "lock asset "@ + key@ + tail@,
{
    let mut m = chars_of("lock asset ");
    push_str_chars(&mut m, key);
    push_str_chars(&mut m, tail);
    string_of(&m)
}

/// Checks one asset of the lock: a 64-digit hex digest, a GitHub HTTPS URL
/// and a binary path that cannot leave the extraction directory.
pub fn validate_asset(key: &str, asset: &Asset) -> (r: Result<(), String>)
    ensures
        match r {
            Ok(()) => asset_error(key@, *asset) is None,
            Err(e) => asset_error(key@, *asset) == Some(e@),
        },
{
    let sha = chars_of(asset.sha256.as_str());
    if !(sha.len() == 64 && all_hex(&sha)) {
        return Err(lock_message(key, " has an invalid sha256"));
    }
    let url = chars_of(asset.url.as_str());
    if url.len() < 19 || !chars_eq_str(&copy_range(&url, 0, 19), "https://github.com/") {
        proof {
            if url@.len() >= 19 {
                assert(url@.subrange(0, 19) =~= url@.take(19));
            }
        }
        return Err(lock_message(key, " must be an https://github.com/ release URL"));
    }
    assert(url@.subrange(0, 19) =~= url@.take(19));
    let binary = chars_of(asset.binary.as_str());
    if !safe_path_exec(&binary) {
        return Err(lock_message(key, " names an unsafe binary path"));
    }
    Ok(())
}

/// The first complaint about the assets from index `i` on.
pub open spec fn assets_error(assets: Seq<(String, Asset)>, i: int) -> Option<Seq<char>>
    decreases assets.len() - i,
{
    if i < 0 || i >= assets.len() {
        None
    } else if asset_error(assets[i].0@, assets[i].1) is Some {
        asset_error(assets[i].0@, assets[i].1)
    } else {
        assets_error(assets, i + 1)
    }
}

pub open spec fn lock_error(lock: Lock) -> Option<Seq<char>> {
    if lock.schema@ != "cameo-knossos-release-lock/v1"@ {
        Some("unsupported Knossos release lock schema "@ + lock.schema@)
    } else {
        assets_error(lock.assets@, 0)
    }
}

/// Checks a parsed lock: its schema, then every asset in key order.
pub fn validate_lock(lock: &Lock) -> (r: Result<(), String>)
    ensures
        match r {
            Ok(()) => lock_error(*lock) is None,
            Err(e) => lock_error(*lock) == Some(e@),
        },
{
    let schema = chars_of(lock.schema.as_str());
    if !chars_eq_str(&schema, "cameo-knossos-release-lock/v1") {
        let mut m = chars_of("unsupported Knossos release lock schema ");
        push_str_chars(&mut m, lock.schema.as_str());
        return Err(string_of(&m));
    }
    let n = lock.assets.len();
    let mut i: usize = 0;
    while i < n
        invariant
            i <= n,
            n == lock.assets@.len(),
            lock_error(*lock) == assets_error(lock.assets@, i as int),
        decreases n - i,
    {
        let entry = &lock.assets[i];
        if let Err(e) = validate_asset(entry.0.as_str(), &entry.1) {
            return Err(e);
        }
        i += 1;
    }
    Ok(())
}

/// The index of the asset for `key`, if the lock has one.
pub open spec fn asset_index(assets: Seq<(String, Asset)>, key: Seq<char>) -> Option<int> {
    if exists|i: int| 0 <= i < assets.len() && #[trigger] assets[i].0@ == key {
        Some(choose|i: int| 0 <= i < assets.len() && #[trigger] assets[i].0@ == key
            && forall|j: int| 0 <= j < i ==> assets[j].0@ != key)
    } else {
        None
    }
}

/// The keys joined with `, `, in order.
pub open spec fn keys_joined(assets: Seq<(String, Asset)>) -> Seq<char>
    decreases assets.len(),
{
    if assets.len() == 0 {
        Seq::empty()
    } else if assets.len() == 1 {
        assets[0].0@
    } else {
        keys_joined(assets.drop_last()) + ", "@ + assets.last().0@
    }
}

pub open spec fn missing_asset_message(lock: Lock, key: Seq<char>) -> Seq<char> {
    "no Knossos "@ + lock.version@ + " release asset for this platform ("@ + key
        + "); available: "@ + keys_joined(lock.assets@)
}

fn find_asset(lock: &Lock, key: &str) -> (r: Option<usize>)
    ensures
        match r {
            Some(i) => i < lock.assets@.len() && lock.assets@[i as int].0@ == key@
                && forall|j: int| 0 <= j < i ==> lock.assets@[j].0@ != key@,
            None => forall|j: int| 0 <= j < lock.assets@.len() ==> lock.assets@[j].0@ != key@,
        },
{
    let k = chars_of(key);
    let n = lock.assets.len();
    let mut i: usize = 0;
    while i < n
        invariant
            i <= n,
            n == lock.assets@.len(),
            k@ == key@,
            forall|j: int| 0 <= j < i ==> lock.assets@[j].0@ != key@,
        decreases n - i,
    {
        let c = chars_of(lock.assets[i].0.as_str());
        if chars_eq(&c, &k) {
            return Some(i);
        }
        i += 1;
    }
    None
}

fn join_keys(assets: &Vec<(String, Asset)>) -> (r: Vec<char>)
    ensures
        r@ == keys_joined(assets@),
{
    let mut out: Vec<char> = Vec::new();
    let n = assets.len();
    let mut i: usize = 0;
    while i < n
        invariant
            i <= n,
            n == assets@.len(),
            out@ == keys_joined(assets@.take(i as int)),
        decreases n - i,
    {
        let ghost before = out@;
        if i > 0 {
            push_str_chars(&mut out, ", ");
        }
        push_str_chars(&mut out, assets[i].0.as_str());
        proof {
            let t = assets@.take(i + 1);
            assert(t.drop_last() =~= assets@.take(i as int));
            if i == 0 {
                assert(out@ =~= t[0].0@);
            }
        }
        i += 1;
    }
    assert(assets@.take(n as int) =~= assets@);
    out
}

/// The index of the asset for `key`, or the refusal that names the
/// platform and every key the lock offers.
pub fn asset_for(lock: &Lock, key: &str) -> (r: Result<usize, String>)
    ensures
        match r {
            Ok(i) => i < lock.assets@.len() && lock.assets@[i as int].0@ == key@
                && forall|j: int| 0 <= j < i ==> lock.assets@[j].0@ != key@,
            Err(e) => (forall|j: int| 0 <= j < lock.assets@.len() ==> lock.assets@[j].0@ != key@)
                && e@ == missing_asset_message(*lock, key@),
        },
{
    match find_asset(lock, key) {
        Some(i) => Ok(i),
        None => {
            let mut m = chars_of("no Knossos ");
            push_str_chars(&mut m, lock.version.as_str());
            push_str_chars(&mut m, " release asset for this platform (");
            push_str_chars(&mut m, key);
            push_str_chars(&mut m, "); available: ");
            let keys = join_keys(&lock.assets);
            push_chars(&mut m, &keys);
            Err(string_of(&m))
        },
    }
}

/// `PathBuf::push` on Unix: an absolute `b` replaces `a`; otherwise `b` is
/// appended after a `/` unless `a` is empty or already ends in one.
pub open spec fn path_join(a: Seq<char>, b: Seq<char>) -> Seq<char> {
    if b.len() > 0 && b[0] == '/' {
        b
    } else if a.len() == 0 || a.last() == '/' {
        a + b
    } else {
        a + "/"@ + b
    }
}

pub fn join(a: &str, b: &str) -> (r: String)
    ensures
        r@ == path_join(a@, b@),
{
    let ac = chars_of(a);
    let bc = chars_of(b);
    if bc.len() > 0 && bc[0] == '/' {
        return string_of(&bc);
    }
    proof {
        reveal_strlit("/");
    }
    let mut v = ac;
    if !(v.len() == 0 || v[v.len() - 1] == '/') {
        v.push('/');
        assert(v@ =~= a@ + "/"@);
    }
    push_chars(&mut v, &bc);
    string_of(&v)
}

/// The last `/`-separated piece of a URL (all of it when it has no `/`).
pub open spec fn last_segment(url: Seq<char>) -> Seq<char>
    decreases url.len(),
{
    if url.len() == 0 {
        url
    } else if url.last() == '/' {
        Seq::empty()
    } else {
        last_segment(url.drop_last()).push(url.last())
    }
}

fn last_segment_exec(url: &[char]) -> (r: Vec<char>)
    ensures
        r@ == last_segment(url@),
{
    let n = url.len();
    let mut i = n;
    assert(url@.take(n as int) =~= url@);
    assert(url@.subrange(n as int, n as int) =~= Seq::<char>::empty());
    assert(last_segment(url@) == last_segment(url@.take(n as int)) + url@.subrange(n as int, n as int));
    while i > 0 && url[i - 1] != '/'
        invariant
            i <= n,
            n == url@.len(),
            forall|j: int| i <= j < n ==> url@[j] != '/',
            last_segment(url@) == last_segment(url@.take(i as int)) + url@.subrange(i as int, n as int),
        decreases i,
    {
        proof {
            let t = url@.take(i as int);
            assert(t.drop_last() =~= url@.take(i - 1));
            assert(last_segment(t) == last_segment(url@.take(i - 1)).push(url@[i - 1]));
            assert(url@.subrange(i - 1, n as int) =~= seq![url@[i - 1]] + url@.subrange(i as int, n as int));
            assert(last_segment(url@.take(i - 1)).push(url@[i - 1]) + url@.subrange(i as int, n as int)
                =~= last_segment(url@.take(i - 1)) + url@.subrange(i - 1, n as int));
        }
        i -= 1;
    }
    proof {
        let t = url@.take(i as int);
        if i == 0 {
            assert(last_segment(t) =~= Seq::<char>::empty());
        } else {
            assert(t.last() == '/');
            assert(last_segment(t) =~= Seq::<char>::empty());
        }
        assert(Seq::<char>::empty() + url@.subrange(i as int, n as int) =~= url@.subrange(i as int, n as int));
    }
    copy_range(url, i, n)
}

pub open spec fn plan_spec(lock: Lock, key: Seq<char>, dir: Seq<char>, link: Option<Seq<char>>) -> Result<(Seq<char>, Seq<char>, Seq<char>), Seq<char>> {
    match asset_index(lock.assets@, key) {
        None => Err(missing_asset_message(lock, key)),
        Some(i) => {
            let asset = lock.assets@[i].1;
            let file = last_segment(asset.url@);
            if file.len() == 0 {
                Err("lock asset "@ + key + " URL has no file name"@)
            } else {
                let extract = path_join(path_join(dir, "versions"@), lock.version@);
                Ok((path_join(path_join(dir, "downloads"@), file), extract, path_join(extract, asset.binary@)))
            }
        },
    }
}

/// The install plan for platform `key` under `dir`: the archive goes under
/// `dir/downloads` by the URL's file name, the release is extracted to
/// `dir/versions/<version>`, and the binary lies at its path inside that.
pub fn plan(lock: &Lock, key: &str, dir: &str, link: Option<&str>) -> (r: Result<Plan, String>)
    ensures
        match r {
            Ok(p) => exists|i: int| #![trigger lock.assets@[i]] asset_index(lock.assets@, key@) == Some(i) && {
                let asset = lock.assets@[i].1;
                &&& plan_spec(*lock, key@, dir@, match link { Some(l) => Some(l@), None => None })
                    == Ok::<(Seq<char>, Seq<char>, Seq<char>), Seq<char>>((p.archive@, p.extract_dir@, p.binary@))
                &&& p.version@ == lock.version@
                &&& p.url@ == asset.url@
                &&& p.sha256@ == asset.sha256@
                &&& p.size == asset.size
                &&& match (p.link, link) {
                    (Some(a), Some(b)) => a@ == b@,
                    (None, None) => true,
                    _ => false,
                }
            },
            Err(e) => plan_spec(*lock, key@, dir@, match link { Some(l) => Some(l@), None => None }) == Err::<(Seq<char>, Seq<char>, Seq<char>), Seq<char>>(e@),
        },
{
    let i = match asset_for(lock, key) {
        Err(e) => {
            proof {
                assert(asset_index(lock.assets@, key@) is None);
            }
            return Err(e);
        },
        Ok(i) => i,
    };
    proof {
        assert(lock.assets@[i as int].0@ == key@);
        let c = choose|j: int| 0 <= j < lock.assets@.len() && #[trigger] lock.assets@[j].0@ == key@
            && forall|k: int| 0 <= k < j ==> lock.assets@[k].0@ != key@;
        if c < i {
            assert(lock.assets@[c].0@ != key@);
        } else if c > i {
            assert(lock.assets@[i as int].0@ != key@);
        }
        assert(asset_index(lock.assets@, key@) == Some(i as int));
    }
    let asset = &lock.assets[i].1;
    let url = chars_of(asset.url.as_str());
    let file = last_segment_exec(&url);
    if file.len() == 0 {
        return Err(lock_message(key, " URL has no file name"));
    }
    let file_name = string_of(&file);
    let downloads = join(dir, "downloads");
    let archive = join(downloads.as_str(), file_name.as_str());
    let versions = join(dir, "versions");
    let extract_dir = join(versions.as_str(), lock.version.as_str());
    let binary = join(extract_dir.as_str(), asset.binary.as_str());
    let link = match link {
        Some(l) => Some(String::from_str(l)),
        None => None,
    };
    Ok(Plan {
        version: String::from_str(lock.version.as_str()),
        url: String::from_str(asset.url.as_str()),
        sha256: String::from_str(asset.sha256.as_str()),
        size: asset.size,
        archive,
        extract_dir,
        binary,
        link,
    })
}

} // verus!
