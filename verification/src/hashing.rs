use vstd::prelude::*;

use crate::pkg::{Package, PkgV};
use crate::strutil::{
    contains_str, find_str, has_prefix, index_of, join_seq, join_str, lemma_index_of_occurs,
    occurs, split_seq, split_str, starts_with_str, substr_copy,
};

verus! {

// Canonical identity hashing. Every deduplication decision and every cache
// address in the engine goes through `generate_package_hash`.

/// The SHA-256 digest of the UTF-8 bytes of a character sequence.
pub uninterp spec fn sha256_of(s: Seq<char>) -> Seq<u8>;

/// Relies on sha2::Sha256 through the Digest trait: the digest of a string's
/// bytes is a fixed function of its characters, 32 bytes long.
#[verifier::external_body]
fn sha256_digest_str(s: &str) -> (r: Vec<u8>)
    ensures
        r@ == sha256_of(s@),
        r@.len() == 32,
{
    let mut hasher = <sha2::Sha256 as sha2::Digest>::new();
    sha2::Digest::update(&mut hasher, s.as_bytes());
    let out = sha2::Digest::finalize(hasher);
    out.as_slice().to_vec()
}

/// The lowercase hexadecimal digit with value `n`.
pub open spec fn hex_digit(n: u8) -> char {
    "0123456789abcdef"@[n as int]
}

/// The bytes written as lowercase hexadecimal, two digits per byte.
pub open spec fn hex_of(bytes: Seq<u8>) -> Seq<char>
    decreases bytes.len(),
{
    if bytes.len() == 0 {
        Seq::<char>::empty()
    } else {
        hex_of(bytes.drop_last()) + seq![
            hex_digit(bytes.last() / 16),
            hex_digit(bytes.last() % 16),
        ]
    }
}

/// Write bytes as lowercase hexadecimal.
pub fn bytes_to_hex(bytes: &Vec<u8>) -> (r: String)
    ensures
        r@ == hex_of(bytes@),
{
    let table = "0123456789abcdef";
    proof {
        reveal_strlit("0123456789abcdef");
    }
    let mut out = String::new();
    let mut i: usize = 0;
    proof {
        assert(bytes@.subrange(0, 0) =~= Seq::<u8>::empty());
    }
    while i < bytes.len()
        invariant
            i <= bytes@.len(),
            table@ == "0123456789abcdef"@,
            table@.len() == 16,
            out@ == hex_of(bytes@.subrange(0, i as int)),
        decreases bytes@.len() - i,
    {
        let b = bytes[i];
        let hi = table.substring_char((b / 16) as usize, (b / 16) as usize + 1);
        let lo = table.substring_char((b % 16) as usize, (b % 16) as usize + 1);
        out.append(hi);
        out.append(lo);
        proof {
            let pre = bytes@.subrange(0, i as int + 1);
            assert(pre.drop_last() =~= bytes@.subrange(0, i as int));
            assert(pre.last() == bytes@[i as int]);
            assert(hi@ =~= seq![hex_digit(b / 16)]);
            assert(lo@ =~= seq![hex_digit(b % 16)]);
            assert(out@ =~= hex_of(pre));
        }
        i += 1;
    }
    proof {
        assert(bytes@.subrange(0, bytes@.len() as int) =~= bytes@);
    }
    out
}

/// A lowercase hexadecimal digit.
pub open spec fn is_hex_digit(c: char) -> bool {
    "0123456789abcdef"@.contains(c)
}

/// Hex encoding writes exactly two digits per byte, each of them a
/// lowercase hexadecimal digit.
pub proof fn lemma_hex_of_props(bytes: Seq<u8>)
    ensures
        hex_of(bytes).len() == 2 * bytes.len(),
        forall|i: int| 0 <= i < hex_of(bytes).len() ==> is_hex_digit(#[trigger] hex_of(bytes)[i]),
    decreases bytes.len(),
{
    reveal_strlit("0123456789abcdef");
    if bytes.len() > 0 {
        lemma_hex_of_props(bytes.drop_last());
        let hi = hex_digit(bytes.last() / 16);
        let lo = hex_digit(bytes.last() % 16);
        assert(is_hex_digit(hi)) by {
            assert("0123456789abcdef"@[(bytes.last() / 16) as int] == hi);
        }
        assert(is_hex_digit(lo)) by {
            assert("0123456789abcdef"@[(bytes.last() % 16) as int] == lo);
        }
        assert forall|i: int| 0 <= i < hex_of(bytes).len() implies is_hex_digit(
            #[trigger] hex_of(bytes)[i],
        ) by {
            if i < hex_of(bytes.drop_last()).len() {
                assert(hex_of(bytes)[i] == hex_of(bytes.drop_last())[i]);
            } else if i == hex_of(bytes).len() - 2 {
                assert(hex_of(bytes)[i] == hi);
            } else {
                assert(hex_of(bytes)[i] == lo);
            }
        }
    }
}

/// The archive URL embedded in a resolution string, after its marker.
pub open spec fn archive_url_of(resolution: Seq<char>) -> Seq<char> {
    resolution.subrange(index_of(resolution, "__archiveUrl="@) + 13, resolution.len() as int)
}

/// The canonical identity string of a package. Classification precedence:
/// source-repository packages first, then embedded archive URLs, then the
/// registry default of name plus version.
pub open spec fn package_id_of(p: PkgV) -> Seq<char> {
    if has_prefix(p.name, "github:"@) || occurs(p.resolution, "github:"@) {
        "github:"@ + p.name + "/"@ + p.resolution
    } else if occurs(p.resolution, "__archiveUrl="@) {
        "url:"@ + archive_url_of(p.resolution)
    } else {
        "npm:"@ + p.name + "@"@ + p.version
    }
}

/// The canonical hash of a package: SHA-256 of its identity string, in hex.
pub open spec fn spec_package_hash(p: PkgV) -> Seq<char> {
    hex_of(sha256_of(package_id_of(p)))
}

/// Build the canonical identity string of a package.
pub fn package_id(package: &Package) -> (r: String)
    ensures
        r@ == package_id_of(package.pv()),
{
    if starts_with_str(package.name.as_str(), "github:") || contains_str(
        package.resolution.as_str(),
        "github:",
    ) {
        let mut s = "github:".to_owned();
        s.append(package.name.as_str());
        s.append("/");
        s.append(package.resolution.as_str());
        s
    } else if let Some(idx) = find_str(package.resolution.as_str(), "__archiveUrl=") {
        proof {
            reveal_strlit("__archiveUrl=");
            lemma_index_of_occurs(package.resolution@, "__archiveUrl="@);
        }
        let reslen = package.resolution.as_str().unicode_len();
        let url = substr_copy(package.resolution.as_str(), idx + 13, reslen);
        let mut s = "url:".to_owned();
        s.append(url.as_str());
        s
    } else {
        let mut s = "npm:".to_owned();
        s.append(package.name.as_str());
        s.append("@");
        s.append(package.version.as_str());
        s
    }
}

/// Compute the canonical, deterministic hash of a package identity:
/// sixty-four lowercase hexadecimal digits.
pub fn generate_package_hash(package: &Package) -> (r: String)
    ensures
        r@ == spec_package_hash(package.pv()),
        r@.len() == 64,
        forall|i: int| 0 <= i < r@.len() ==> is_hex_digit(#[trigger] r@[i]),
{
    let id = package_id(package);
    let digest = sha256_digest_str(id.as_str());
    proof {
        lemma_hex_of_props(digest@);
    }
    bytes_to_hex(&digest)
}

/// The registry label used for fallback checksums: the stored registry, or a
/// classification of the identity when none is stored.
pub open spec fn fallback_registry_of(p: PkgV) -> Seq<char> {
    if p.registry.len() == 0 {
        if has_prefix(p.name, "github:"@) || occurs(p.resolution, "github:"@) {
            "github"@
        } else {
            "npm"@
        }
    } else {
        p.registry
    }
}

/// The identity string hashed for a fallback checksum: registry, the parts of
/// the name, and the version, joined with colons.
pub open spec fn fallback_id_of(p: PkgV) -> Seq<char> {
    join_seq(seq![fallback_registry_of(p)] + split_seq(p.name, '/') + seq![p.version], ":"@)
}

/// Generate a checksum for a package that carries none: the fallback marker
/// followed by sixty-four lowercase hexadecimal digits.
pub fn generate_fallback_checksum(package: &Package) -> (r: String)
    ensures
        r@ == "fallback:"@ + hex_of(sha256_of(fallback_id_of(package.pv()))),
        r@.len() == "fallback:"@.len() + 64,
        forall|i: int|
            "fallback:"@.len() <= i < r@.len() ==> is_hex_digit(#[trigger] r@[i]),
{
    let registry = if package.registry.as_str().is_empty() {
        if starts_with_str(package.name.as_str(), "github:") || contains_str(
            package.resolution.as_str(),
            "github:",
        ) {
            "github".to_owned()
        } else {
            "npm".to_owned()
        }
    } else {
        package.registry.clone()
    };
    let ghost registry_v = registry@;
    let mut parts: Vec<String> = Vec::new();
    parts.push(registry);
    let mut name_parts = split_str(package.name.as_str(), '/');
    let ghost name_parts_v = name_parts@;
    parts.append(&mut name_parts);
    parts.push(package.version.clone());
    proof {
        assert(registry_v == fallback_registry_of(package.pv()));
        assert(parts@.map_values(|t: String| t@) =~= seq![fallback_registry_of(package.pv())]
            + split_seq(package.name@, '/') + seq![package.version@]) by {
            assert(name_parts_v.map_values(|t: String| t@) == split_seq(package.name@, '/'));
            assert(parts@.len() == 1 + name_parts_v.len() + 1);
            assert(forall|j: int|
                0 <= j < name_parts_v.len() ==> parts@[1 + j] == name_parts_v[j]);
        }
    }
    let id = join_str(&parts, ":");
    let digest = sha256_digest_str(id.as_str());
    let hexs = bytes_to_hex(&digest);
    let mut out = "fallback:".to_owned();
    out.append(hexs.as_str());
    proof {
        lemma_hex_of_props(digest@);
        assert forall|i: int|
            "fallback:"@.len() <= i < out@.len() implies is_hex_digit(#[trigger] out@[i]) by {
            assert(out@[i] == hexs@[i - "fallback:"@.len()]);
        }
    }
    out
}

/// The hash is a pure function of the identity string: identities that
/// classify to the same canonical string always hash identically, whatever
/// order or context the calls happen in.
pub proof fn lemma_hash_deterministic(p1: PkgV, p2: PkgV)
    requires
        package_id_of(p1) == package_id_of(p2),
    ensures
        spec_package_hash(p1) == spec_package_hash(p2),
{
}

/// Two archive-addressed identities with the same embedded archive URL hash
/// identically, even when their display names or versions differ.
pub proof fn lemma_archive_url_dedup(p1: PkgV, p2: PkgV)
    requires
        !has_prefix(p1.name, "github:"@),
        !occurs(p1.resolution, "github:"@),
        !has_prefix(p2.name, "github:"@),
        !occurs(p2.resolution, "github:"@),
        occurs(p1.resolution, "__archiveUrl="@),
        occurs(p2.resolution, "__archiveUrl="@),
        archive_url_of(p1.resolution) == archive_url_of(p2.resolution),
    ensures
        spec_package_hash(p1) == spec_package_hash(p2),
{
}

} // verus!
