//! Data for new projects: the pinned release of the CPM package manager
//! (version and SHA-256 of its script) and the filled-in CMakeLists.
use crate::text::{replace_all, replace_pattern};
use vstd::prelude::*;

verus! {

/// A release of CPM.cmake: its version and the hex SHA-256 of its script.
#[derive(Debug, Clone)]
pub struct CpmInfo {
    pub version: String,
    pub sha256: String,
}

/// The SHA-256 digest of some bytes.
pub uninterp spec fn sha256_of(data: Seq<u8>) -> Seq<u8>;

/// Relies on `sha2::Sha256::digest`: the 32-byte SHA-256 digest of `data`.
#[verifier::external_body]
fn sha256_digest(data: &[u8]) -> (r: Vec<u8>)
    ensures
        r@ == sha256_of(data@),
        r@.len() == 32,
{
    <sha2::Sha256 as sha2::Digest>::digest(data).to_vec()
}

/// The lowercase hex digit for a value below 16.
pub open spec fn hex_digit(n: u8) -> char {
    "0123456789abcdef"@[n as int]
}

/// Lowercase hex, two digits per byte, high nibble first.
pub open spec fn hex_lower(b: Seq<u8>) -> Seq<char>
    decreases b.len(),
{
    if b.len() == 0 {
        Seq::empty()
    } else {
        hex_lower(b.drop_last()) + seq![hex_digit(b.last() / 16), hex_digit(b.last() % 16)]
    }
}

/// A version tag without its leading `v`, if it has one.
pub open spec fn version_of_tag(tag: Seq<char>) -> Seq<char> {
    if tag.len() > 0 && tag[0] == 'v' {
        tag.drop_first()
    } else {
        tag
    }
}

/// Lowercase hex of the bytes.
pub fn to_hex(b: &[u8]) -> (r: String)
    ensures
        r@ == hex_lower(b@),
{
    let digits = "0123456789abcdef";
    proof {
        reveal_strlit("0123456789abcdef");
    }
    let mut out = String::new();
    let mut i: usize = 0;
    assert(b@.subrange(0, 0) =~= Seq::<u8>::empty());
    while i < b.len()
        invariant
            digits@ == "0123456789abcdef"@,
            digits@.len() == 16,
            i <= b@.len(),
            out@ == hex_lower(b@.subrange(0, i as int)),
        decreases b@.len() - i,
    {
        let x = b[i];
        let hi = (x / 16) as usize;
        let lo = (x % 16) as usize;
        let ghost before = out@;
        out.append(digits.substring_char(hi, hi + 1));
        out.append(digits.substring_char(lo, lo + 1));
        assert(b@.subrange(0, i + 1).drop_last() =~= b@.subrange(0, i as int));
        assert(out@ =~= before + seq![hex_digit(x / 16), hex_digit(x % 16)]);
        i = i + 1;
    }
    assert(b@.subrange(0, b@.len() as int) =~= b@);
    out
}

/// The version that a release tag names: the tag without a leading `v`.
pub fn version_from_tag(tag: &str) -> (r: String)
    ensures
        r@ == version_of_tag(tag@),
{
    let n = tag.unicode_len();
    if n > 0 && tag.get_char(0) == 'v' {
        let r = String::from_str(tag.substring_char(1, n));
        assert(r@ =~= tag@.drop_first());
        r
    } else {
        String::from_str(tag)
    }
}

impl CpmInfo {
    /// The release with tag `tag` whose script is `script`.
    pub fn from_release(tag: &str, script: &[u8]) -> (r: CpmInfo)
        ensures
            r.version@ == version_of_tag(tag@),
            r.sha256@ == hex_lower(sha256_of(script@)),
    {
        let digest = sha256_digest(script);
        CpmInfo { version: version_from_tag(tag), sha256: to_hex(digest.as_slice()) }
    }
}

/// The CMakeLists template with `{name}`, `{cpm_version}` and
/// `{cpm_hash_sum}` filled in, in that order.
pub open spec fn cmake_lists_model(
    template: Seq<char>,
    name: Seq<char>,
    cpm: (Seq<char>, Seq<char>),
) -> Seq<char> {
    replace_all(
        replace_all(replace_all(template, "{name}"@, name), "{cpm_version}"@, cpm.0),
        "{cpm_hash_sum}"@,
        cpm.1,
    )
}

/// Fills in the CMakeLists template for project `name` using `cpm`.
pub fn render_cmake_lists(template: &str, name: &str, cpm: &CpmInfo) -> (r: String)
    ensures
        r@ == cmake_lists_model(template@, name@, (cpm.version@, cpm.sha256@)),
{
    proof {
        reveal_strlit("{name}");
        reveal_strlit("{cpm_version}");
        reveal_strlit("{cpm_hash_sum}");
    }
    let a = replace_pattern(template, "{name}", name).0;
    let b = replace_pattern(a.as_str(), "{cpm_version}", cpm.version.as_str()).0;
    replace_pattern(b.as_str(), "{cpm_hash_sum}", cpm.sha256.as_str()).0
}

} // verus!
