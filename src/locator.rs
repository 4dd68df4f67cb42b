//! Module locators, the on-disk cache layout, registry addresses and
//! checksum checks for remotely fetched modules.

use vstd::prelude::*;
use vstd::string::*;
use crate::text::{
    chars_of, count_char, count_of, cut_index, has_prefix, is_cut, lemma_cut_unique, split_once,
    str_starts_with, string_from,
};

verus! {

/// Why a module could not be fetched.
#[derive(Clone, Copy, Debug, PartialEq, Eq, Structural)]
pub enum FetchError {
    /// The locator is not `remote://<host>/<name>@<version>`.
    BadUri,
    /// The registry could not be reached or answered with an error.
    FetchHttp,
    /// The manifest declares no checksum for the component.
    ManifestMissingChecksum,
    /// The component's digest differs from the declared one.
    ChecksumMismatch,
    /// The declared checksum uses an algorithm other than `sha256`.
    UnsupportedHashAlgorithm,
}

/// A parsed `remote://<host>[:port]/<name>@<version>` locator.
#[derive(Clone, Debug)]
pub struct RemoteLocator {
    pub host: String,
    pub name: String,
    pub version: String,
}

/// Where a module comes from.
#[derive(Clone, Debug)]
pub enum ModuleSource {
    /// A path on the local disk, as written in the blueprint.
    Local(String),
    /// A module held by a remote registry.
    Remote(RemoteLocator),
}

pub open spec fn remote_prefix() -> Seq<char> {
    "remote://"@
}

/// The host, name and version of a remote locator, or `None` when `uri` is
/// not one: after `remote://` comes the host up to the first `/`, then a
/// last segment, without `/`, that holds exactly one `@`.
pub open spec fn locator_parts(uri: Seq<char>) -> Option<(Seq<char>, Seq<char>, Seq<char>)> {
    if !has_prefix(uri, remote_prefix()) {
        None
    } else {
        let rest = uri.subrange(remote_prefix().len() as int, uri.len() as int);
        let h = cut_index(rest, '/');
        if h >= rest.len() {
            None
        } else {
            let after = rest.subrange(h + 1, rest.len() as int);
            let part = after;
            if cut_index(after, '/') < after.len() || count_char(part, '@') != 1 {
                None
            } else {
                let a = cut_index(part, '@');
                Some((rest.subrange(0, h), part.subrange(0, a), part.subrange(a + 1, part.len() as int)))
            }
        }
    }
}

proof fn lemma_cut_of(s: Seq<char>, c: char, k: int)
    requires
        is_cut(s, c, k),
    ensures
        cut_index(s, c) == k,
{
    let j = cut_index(s, c);
    lemma_cut_unique(s, c, j, k);
}

/// Parses a `remote://` locator.
pub fn parse_remote_locator(uri: &str) -> (r: Result<RemoteLocator, FetchError>)
    ensures
        match r {
            Ok(l) => locator_parts(uri@) == Some((l.host@, l.name@, l.version@)),
            Err(e) => e == FetchError::BadUri && locator_parts(uri@) is None,
        },
{
    if !str_starts_with(uri, "remote://") {
        return Err(FetchError::BadUri);
    }
    let v = chars_of(uri);
    let plen = chars_of("remote://").len();
    let rest = string_from(&v, plen, v.len());
    let ghost rs = uri@.subrange(remote_prefix().len() as int, uri@.len() as int);
    assert(rest@ == rs);
    let (host, after) = split_once(rest.as_str(), '/');
    proof {
        lemma_cut_of(rs, '/', host@.len() as int);
    }
    let after = match after {
        Some(a) => a,
        None => {
            return Err(FetchError::BadUri);
        },
    };
    let (part, extra) = split_once(after.as_str(), '/');
    proof {
        lemma_cut_of(after@, '/', part@.len() as int);
    }
    if extra.is_some() {
        assert(cut_index(after@, '/') < after@.len());
        return Err(FetchError::BadUri);
    }
    assert(part@ =~= after@);
    if count_of(part.as_str(), '@') != 1 {
        return Err(FetchError::BadUri);
    }
    let (name, version) = split_once(part.as_str(), '@');
    proof {
        lemma_cut_of(part@, '@', name@.len() as int);
    }
    match version {
        Some(version) => Ok(RemoteLocator { host, name, version }),
        None => {
            proof {
                assert(false) by {
                    assert(forall|j: int| 0 <= j < part@.len() ==> part@[j] != '@');
                    lemma_no_char_count(part@, '@');
                }
            }
            Err(FetchError::BadUri)
        },
    }
}

proof fn lemma_no_char_count(s: Seq<char>, c: char)
    requires
        forall|j: int| 0 <= j < s.len() ==> s[j] != c,
    ensures
        count_char(s, c) == 0,
    decreases s.len(),
{
    if s.len() > 0 {
        lemma_no_char_count(s.drop_last(), c);
    }
}

/// Tells a local path from a remote locator.
pub fn module_source(locator: &str) -> (r: Result<ModuleSource, FetchError>)
    ensures
        !has_prefix(locator@, remote_prefix()) ==> (r matches Ok(ModuleSource::Local(p)) && p@ == locator@),
        has_prefix(locator@, remote_prefix()) ==> match r {
            Ok(ModuleSource::Remote(l)) => locator_parts(locator@) == Some((l.host@, l.name@, l.version@)),
            Ok(ModuleSource::Local(_)) => false,
            Err(e) => e == FetchError::BadUri && locator_parts(locator@) is None,
        },
{
    if str_starts_with(locator, "remote://") {
        match parse_remote_locator(locator) {
            Ok(l) => Ok(ModuleSource::Remote(l)),
            Err(e) => Err(e),
        }
    } else {
        Ok(ModuleSource::Local(String::from_str(locator)))
    }
}

/// The cache directory of a module, relative to the cache root:
/// `<host>/<name>@<version>`.
pub open spec fn cache_key_spec(host: Seq<char>, name: Seq<char>, version: Seq<char>) -> Seq<char> {
    host + "/"@ + name + "@"@ + version
}

/// `http` for a host that starts with `localhost`, else `https`.
pub open spec fn scheme_of(host: Seq<char>) -> Seq<char> {
    if has_prefix(host, "localhost"@) {
        "http"@
    } else {
        "https"@
    }
}

/// `<scheme>://<host>/<name>/<version>`.
pub open spec fn base_url_spec(host: Seq<char>, name: Seq<char>, version: Seq<char>) -> Seq<char> {
    scheme_of(host) + "://"@ + host + "/"@ + name + "/"@ + version
}

impl RemoteLocator {
    /// The cache directory of the module, relative to the cache root.
    pub fn cache_key(&self) -> (r: String)
        ensures
            r@ == cache_key_spec(self.host@, self.name@, self.version@),
    {
        let mut s = self.host.clone();
        s.append("/");
        s.append(self.name.as_str());
        s.append("@");
        s.append(self.version.as_str());
        s
    }

    /// The registry address under which the module's files lie.
    pub fn base_url(&self) -> (r: String)
        ensures
            r@ == base_url_spec(self.host@, self.name@, self.version@),
    {
        let mut s = if str_starts_with(self.host.as_str(), "localhost") {
            String::from_str("http")
        } else {
            String::from_str("https")
        };
        s.append("://");
        s.append(self.host.as_str());
        s.append("/");
        s.append(self.name.as_str());
        s.append("/");
        s.append(self.version.as_str());
        s
    }

    /// The registry address of one of the module's files.
    pub fn file_url(&self, file: &str) -> (r: String)
        ensures
            r@ == base_url_spec(self.host@, self.name@, self.version@) + "/"@ + file@,
    {
        let mut s = self.base_url();
        s.append("/");
        s.append(file);
        s
    }
}

/// What the fetcher does for a remote module.
#[derive(Clone, Debug)]
pub enum FetchPlan {
    /// The cache holds the module: use it as it is.
    UseCached { cache_key: String },
    /// Download the manifest and the component, check the digest, store both
    /// under the cache key; the interface file is optional.
    Download { cache_key: String, manifest_url: String, component_url: String, interface_url: String },
}

/// `p` is the plan for `loc` given whether the cache holds it: use the cache
/// when it does, else download the three files, all under the same cache key.
pub open spec fn plan_of(loc: RemoteLocator, cached: bool, p: FetchPlan) -> bool {
    match p {
        FetchPlan::UseCached { cache_key } => cached && cache_key@ == cache_key_spec(loc.host@, loc.name@, loc.version@),
        FetchPlan::Download { cache_key, manifest_url, component_url, interface_url } => !cached
            && cache_key@ == cache_key_spec(loc.host@, loc.name@, loc.version@)
            && manifest_url@ == base_url_spec(loc.host@, loc.name@, loc.version@) + "/"@ + "manifest.toml"@
            && component_url@ == base_url_spec(loc.host@, loc.name@, loc.version@) + "/"@ + "component.wasm"@
            && interface_url@ == base_url_spec(loc.host@, loc.name@, loc.version@) + "/"@ + "interface.wit"@,
    }
}

/// Decides between the cache and the registry.
pub fn plan_fetch(loc: &RemoteLocator, cached: bool) -> (r: FetchPlan)
    ensures
        plan_of(*loc, cached, r),
{
    if cached {
        FetchPlan::UseCached { cache_key: loc.cache_key() }
    } else {
        FetchPlan::Download {
            cache_key: loc.cache_key(),
            manifest_url: loc.file_url("manifest.toml"),
            component_url: loc.file_url("component.wasm"),
            interface_url: loc.file_url("interface.wit"),
        }
    }
}

/// The cache key of a plan.
pub open spec fn plan_key(p: FetchPlan) -> Seq<char> {
    match p {
        FetchPlan::UseCached { cache_key } => cache_key@,
        FetchPlan::Download { cache_key, .. } => cache_key@,
    }
}

/// A cache hit is idempotent: with the cache empty the fetcher downloads
/// into the module's cache directory; once that is filled, fetching again
/// downloads nothing and yields the same cache directory.
pub proof fn lemma_cache_hit_idempotent(loc: RemoteLocator, cold: FetchPlan, warm: FetchPlan)
    requires
        plan_of(loc, false, cold),
        plan_of(loc, true, warm),
    ensures
        cold is Download,
        warm is UseCached,
        plan_key(cold) == plan_key(warm),
{
}

/// The SHA-256 digest of some bytes.
pub uninterp spec fn sha256_of(data: Seq<u8>) -> Seq<u8>;

/// Relies on `sha2::Sha256::digest`: 32 bytes, a function of the input alone.
#[verifier::external_body]
fn sha256_digest(data: &[u8]) -> (r: Vec<u8>)
    ensures
        r@ == sha256_of(data@),
        r@.len() == 32,
{
    <sha2::Sha256 as sha2::Digest>::digest(data).to_vec()
}

/// The lowercase hexadecimal digit of a value below 16.
pub open spec fn hex_digit(d: int) -> char {
    if d < 10 {
        (d + 48) as char
    } else {
        (d + 87) as char
    }
}

/// Bytes written as lowercase hexadecimal, two digits per byte, high nibble
/// first.
pub open spec fn lower_hex(b: Seq<u8>) -> Seq<char>
    decreases b.len(),
{
    if b.len() == 0 {
        Seq::empty()
    } else {
        lower_hex(b.drop_last()) + seq![hex_digit(b.last() as int / 16), hex_digit(b.last() as int % 16)]
    }
}

/// The lowercase hex form of a digest: what a declared checksum is compared with.
pub open spec fn digest_hex(data: Seq<u8>) -> Seq<char> {
    lower_hex(sha256_of(data))
}

fn hex_char(d: u8) -> (r: char)
    requires
        d < 16,
    ensures
        r == hex_digit(d as int),
{
    let digits: [char; 16] = ['0', '1', '2', '3', '4', '5', '6', '7', '8', '9', 'a', 'b', 'c', 'd', 'e', 'f'];
    let c = digits[d as usize];
    proof {
        assert(digits@ =~= seq!['0', '1', '2', '3', '4', '5', '6', '7', '8', '9', 'a', 'b', 'c', 'd', 'e', 'f']);
    }
    c
}

/// Bytes in lowercase hexadecimal.
pub fn to_lower_hex(b: &Vec<u8>) -> (r: String)
    ensures
        r@ == lower_hex(b@),
{
    let mut out: Vec<char> = Vec::new();
    let mut i: usize = 0;
    while i < b.len()
        invariant
            i <= b@.len(),
            out@ == lower_hex(b@.subrange(0, i as int)),
        decreases b@.len() - i,
    {
        let x = b[i];
        out.push(hex_char(x / 16));
        out.push(hex_char(x % 16));
        proof {
            let s = b@.subrange(0, i + 1);
            assert(s.drop_last() =~= b@.subrange(0, i as int));
            assert(s.last() == x);
        }
        i = i + 1;
        assert(out@ =~= lower_hex(b@.subrange(0, i as int)));
    }
    assert(b@.subrange(0, b@.len() as int) =~= b@);
    crate::text::string_of(out.as_slice())
}

/// A character with ASCII upper case folded to lower case.
pub open spec fn fold_case(c: char) -> int {
    if 'A' <= c && c <= 'Z' {
        c as int + 32
    } else {
        c as int
    }
}

/// `a` and `b` are equal up to ASCII case.
pub open spec fn eq_ignore_case(a: Seq<char>, b: Seq<char>) -> bool {
    a.len() == b.len() && forall|i: int| 0 <= i < a.len() ==> fold_case(#[trigger] a[i]) == fold_case(b[i])
}

/// The hex digest that a declared checksum names, when it is a `sha256:` one.
pub open spec fn declared_sha256(declared: Seq<char>) -> Option<Seq<char>> {
    if has_prefix(declared, "sha256:"@) {
        Some(declared.subrange(("sha256:"@).len() as int, declared.len() as int))
    } else {
        None
    }
}

fn folded(c: char) -> (r: u32)
    ensures
        r as int == fold_case(c),
{
    if 'A' <= c && c <= 'Z' {
        (c as u32) + 32
    } else {
        c as u32
    }
}

/// Whether `computed` (a hex digest) matches the declared checksum, ignoring
/// ASCII case; an error for an algorithm other than `sha256`.
pub fn check_digest(computed: &str, declared: &str) -> (r: Result<bool, FetchError>)
    ensures
        match declared_sha256(declared@) {
            None => r == Err::<bool, FetchError>(FetchError::UnsupportedHashAlgorithm),
            Some(h) => r == Ok::<bool, FetchError>(eq_ignore_case(computed@, h)),
        },
{
    if !str_starts_with(declared, "sha256:") {
        return Err(FetchError::UnsupportedHashAlgorithm);
    }
    let d = chars_of(declared);
    let plen = chars_of("sha256:").len();
    let a = chars_of(computed);
    let ghost h = declared@.subrange(("sha256:"@).len() as int, declared@.len() as int);
    if a.len() != d.len() - plen {
        return Ok(false);
    }
    let mut i: usize = 0;
    while i < a.len()
        invariant
            i <= a@.len(),
            a@ == computed@,
            d@ == declared@,
            plen == ("sha256:"@).len(),
            plen <= d@.len(),
            d@.len() <= usize::MAX,
            has_prefix(declared@, "sha256:"@),
            a@.len() == d@.len() - plen,
            h == declared@.subrange(plen as int, declared@.len() as int),
            forall|k: int| 0 <= k < i ==> fold_case(#[trigger] a@[k]) == fold_case(h[k]),
        decreases a@.len() - i,
    {
        assert(plen + i < d@.len());
        let j: usize = plen + i;
        assert(h[i as int] == d@[j as int]);
        if folded(a[i]) != folded(d[j]) {
            assert(fold_case(a@[i as int]) != fold_case(h[i as int]));
            assert(!eq_ignore_case(computed@, h));
            return Ok(false);
        }
        i = i + 1;
    }
    Ok(true)
}

/// Checks fetched component bytes against the declared checksum: `Ok(true)`
/// when the SHA-256 digest of `data` matches it.
pub fn verify_checksum(data: &[u8], declared: &str) -> (r: Result<bool, FetchError>)
    ensures
        match declared_sha256(declared@) {
            None => r == Err::<bool, FetchError>(FetchError::UnsupportedHashAlgorithm),
            Some(h) => r == Ok::<bool, FetchError>(eq_ignore_case(digest_hex(data@), h)),
        },
{
    let digest = sha256_digest(data);
    let computed = to_lower_hex(&digest);
    check_digest(computed.as_str(), declared)
}

/// The declared component checksum of a manifest, or the error for its absence.
pub fn expected_checksum(declared: Option<String>) -> (r: Result<String, FetchError>)
    ensures
        match declared {
            Some(s) => r matches Ok(t) && t@ == s@,
            None => r == Err::<String, FetchError>(FetchError::ManifestMissingChecksum),
        },
{
    match declared {
        Some(s) => Ok(s),
        None => Err(FetchError::ManifestMissingChecksum),
    }
}

/// The outcome of checking a downloaded component: accepted, or refused with
/// `ChecksumMismatch`.
pub fn accept_component(data: &[u8], declared: &str) -> (r: Result<(), FetchError>)
    ensures
        match declared_sha256(declared@) {
            None => r == Err::<(), FetchError>(FetchError::UnsupportedHashAlgorithm),
            Some(h) => if eq_ignore_case(digest_hex(data@), h) {
                r == Ok::<(), FetchError>(())
            } else {
                r == Err::<(), FetchError>(FetchError::ChecksumMismatch)
            },
        },
{
    match verify_checksum(data, declared) {
        Ok(true) => Ok(()),
        Ok(false) => Err(FetchError::ChecksumMismatch),
        Err(e) => Err(e),
    }
}

} // verus!
