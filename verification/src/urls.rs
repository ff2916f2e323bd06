use vstd::prelude::*;

use crate::pkg::{Package, PkgV};
use crate::strutil::{
    contains_str, find_char_str, find_str, has_char, has_prefix, has_suffix, index_of,
    index_of_char, lemma_index_of_occurs, lower_of, lowercase, occurs, occurs_at, split_seq,
    split_str, starts_with_str, strip_prefix_all, strip_prefix_all_str, substr_copy,
    ends_with_str,
};

verus! {

// Classification of identities and construction of registry URLs: pure
// string logic shared by the engine, the parsers and the reporting layer.

/// The URL names a downloadable archive rather than a registry entry.
pub open spec fn is_archive_url_of(url: Seq<char>) -> bool {
    has_suffix(url, ".zip"@) || has_suffix(url, ".tar.gz"@) || has_suffix(url, ".tgz"@)
}

/// Check whether a URL points at an archive that needs downloading and
/// unpacking.
pub fn is_archive_url(url: &str) -> (r: bool)
    ensures
        r == is_archive_url_of(url@),
{
    ends_with_str(url, ".zip") || ends_with_str(url, ".tar.gz") || ends_with_str(url, ".tgz")
}

/// The resolution names a source repository rather than a registry entry.
pub open spec fn resolution_is_github_of(res: Seq<char>) -> bool {
    occurs(res, "github:"@) || occurs(res, "github.com"@) || (occurs(res, "__archiveUrl="@)
        && occurs(res, "github.com"@))
}

/// Check whether a package's resolution string points at a source repository.
pub fn package_resolution_is_github(resolution: &str) -> (r: bool)
    ensures
        r == resolution_is_github_of(resolution@),
{
    contains_str(resolution, "github:") || contains_str(resolution, "github.com") || (
    contains_str(resolution, "__archiveUrl=") && contains_str(resolution, "github.com"))
}

/// The text after the first repository marker, cut at the next marker.
pub open spec fn github_part_after(res: Seq<char>) -> Seq<char> {
    let start = index_of(res, "github:"@) + 7;
    let rest = res.subrange(start, res.len() as int);
    if occurs(rest, "github:"@) {
        rest.subrange(0, index_of(rest, "github:"@))
    } else {
        rest
    }
}

/// The repository path embedded in a resolution: the text after the first
/// marker, cut at the next marker and at any reference suffix.
pub open spec fn github_repo_path_of(res: Seq<char>) -> Seq<char> {
    let part = github_part_after(res);
    if has_char(part, '#') {
        part.subrange(0, index_of_char(part, '#'))
    } else {
        part
    }
}

/// The repository URL embedded in a resolution string, when it carries the
/// repository marker.
pub open spec fn extract_github_url_of(res: Seq<char>) -> Option<Seq<char>> {
    if occurs(res, "github:"@) {
        Some("https://github.com/"@ + github_repo_path_of(res))
    } else {
        None
    }
}

fn github_repo_path(resolution: &str) -> (r: String)
    requires
        occurs(resolution@, "github:"@),
    ensures
        r@ == github_repo_path_of(resolution@),
{
    proof {
        reveal_strlit("github:");
        lemma_index_of_occurs(resolution@, "github:"@);
    }
    let reslen = resolution.unicode_len();
    let idx = match find_str(resolution, "github:") {
        Some(i) => i,
        None => {
            proof {
                assert(false);
            }
            0
        },
    };
    let rest = substr_copy(resolution, idx + 7, reslen);
    let part = match find_str(rest.as_str(), "github:") {
        Some(j) => {
            proof {
                reveal_strlit("github:");
                lemma_index_of_occurs(rest@, "github:"@);
            }
            substr_copy(rest.as_str(), 0, j)
        },
        None => rest,
    };
    match find_char_str(part.as_str(), '#') {
        Some(h) => {
            proof {
                crate::strutil::lemma_index_of_char_occurs(part@, '#');
            }
            substr_copy(part.as_str(), 0, h)
        },
        None => part,
    }
}

/// Extract the repository URL from a resolution string, when present.
pub fn extract_github_url(resolution: &str) -> (r: Option<String>)
    ensures
        match r {
            Some(u) => extract_github_url_of(resolution@) == Some(u@),
            None => extract_github_url_of(resolution@) is None,
        },
{
    if contains_str(resolution, "github:") {
        let path = github_repo_path(resolution);
        let mut u = "https://github.com/".to_owned();
        u.append(path.as_str());
        Some(u)
    } else {
        None
    }
}

/// Extract the repository URL from a resolution string, or say why not.
pub fn extract_github_url_from_resolution(resolution: &str) -> (r: Result<String, String>)
    ensures
        match r {
            Ok(u) => extract_github_url_of(resolution@) == Some(u@),
            Err(m) => extract_github_url_of(resolution@) is None && m@
                == "Could not extract GitHub URL from resolution: "@ + resolution@,
        },
{
    match extract_github_url(resolution) {
        Some(u) => Ok(u),
        None => {
            let mut m = "Could not extract GitHub URL from resolution: ".to_owned();
            m.append(resolution);
            Err(m)
        },
    }
}

/// A normalized repository URL: scheme prefixes and suffixes stripped, owner
/// and repository kept.
pub open spec fn normalize_github_url_of(url: Seq<char>) -> Option<Seq<char>> {
    if occurs(url, "github.com"@) {
        let u = crate::strutil::replace_seq(
            crate::strutil::replace_seq(
                crate::strutil::replace_seq(url, "git+"@, ""@),
                "git://"@,
                "https://"@,
            ),
            ".git"@,
            ""@,
        );
        let parts = split_seq(u, '/');
        if has_prefix(u, "https://github.com/"@) && parts.len() >= 5 {
            Some("https://github.com/"@ + parts[3] + "/"@ + parts[4])
        } else {
            None
        }
    } else {
        None
    }
}

/// Normalize a repository URL to the plain `https` owner/repository form.
pub fn normalize_github_url(url: &str) -> (r: Option<String>)
    ensures
        match r {
            Some(u) => normalize_github_url_of(url@) == Some(u@),
            None => normalize_github_url_of(url@) is None,
        },
{
    if contains_str(url, "github.com") {
        proof {
            reveal_strlit("git+");
            reveal_strlit("git://");
            reveal_strlit(".git");
        }
        let u1 = crate::strutil::replace_str(url, "git+", "");
        let u2 = crate::strutil::replace_str(u1.as_str(), "git://", "https://");
        let u = crate::strutil::replace_str(u2.as_str(), ".git", "");
        let parts = split_str(u.as_str(), '/');
        if starts_with_str(u.as_str(), "https://github.com/") && parts.len() >= 5 {
            let mut out = "https://github.com/".to_owned();
            out.append(parts[3].as_str());
            out.append("/");
            out.append(parts[4].as_str());
            proof {
                let ps = split_seq(u@, '/');
                assert(parts@.map_values(|t: String| t@)[3] == ps[3]);
                assert(parts@.map_values(|t: String| t@)[4] == ps[4]);
            }
            Some(out)
        } else {
            None
        }
    } else {
        None
    }
}

/// Owner, repository and reference parsed from a repository URL.
pub open spec fn github_details_of(url: Seq<char>) -> Option<(Seq<char>, Seq<char>, Seq<char>)> {
    if has_prefix(url, "https://github.com/"@) {
        let parts = split_seq(url, '/');
        if parts.len() >= 5 {
            let r = if parts.len() > 6 && (parts[5] == "tree"@ || parts[5] == "commit"@) {
                parts[6]
            } else {
                "main"@
            };
            Some((parts[3], parts[4], r))
        } else {
            None
        }
    } else if has_prefix(url, "github:"@) {
        let u = strip_prefix_all(url, "github:"@);
        let parts = split_seq(u, '#');
        let repo_parts = split_seq(parts[0], '/');
        if repo_parts.len() >= 2 {
            let r = if parts.len() > 1 {
                parts[1]
            } else {
                "main"@
            };
            Some((repo_parts[0], repo_parts[1], r))
        } else {
            None
        }
    } else {
        None
    }
}

/// Parse owner, repository and reference out of a repository URL, or say why
/// it cannot be done.
pub fn extract_github_details(url: &str) -> (r: Result<(String, String, String), String>)
    ensures
        match r {
            Ok(d) => github_details_of(url@) == Some((d.0@, d.1@, d.2@)),
            Err(m) => github_details_of(url@) is None && m@
                == "Could not extract GitHub details from URL: "@ + url@,
        },
{
    if starts_with_str(url, "https://github.com/") {
        let parts = split_str(url, '/');
        if parts.len() >= 5 {
            let ghost ps = split_seq(url@, '/');
            proof {
                assert(parts@.map_values(|t: String| t@)[3] == ps[3]);
                assert(parts@.map_values(|t: String| t@)[4] == ps[4]);
            }
            let owner = parts[3].clone();
            let repo = parts[4].clone();
            let reference = if parts.len() > 6 && (crate::strutil::str_eq(
                parts[5].as_str(),
                "tree",
            ) || crate::strutil::str_eq(parts[5].as_str(), "commit")) {
                proof {
                    assert(parts@.map_values(|t: String| t@)[5] == ps[5]);
                    assert(parts@.map_values(|t: String| t@)[6] == ps[6]);
                }
                parts[6].clone()
            } else {
                proof {
                    if parts.len() > 6 {
                        assert(parts@.map_values(|t: String| t@)[5] == ps[5]);
                    }
                }
                "main".to_owned()
            };
            return Ok((owner, repo, reference));
        }
        let mut m = "Could not extract GitHub details from URL: ".to_owned();
        m.append(url);
        Err(m)
    } else if starts_with_str(url, "github:") {
        proof {
            reveal_strlit("github:");
        }
        let u = strip_prefix_all_str(url, "github:");
        let parts = split_str(u.as_str(), '#');
        let ghost ps = split_seq(u@, '#');
        proof {
            assert(parts@.map_values(|t: String| t@)[0] == ps[0]);
        }
        let repo_parts = split_str(parts[0].as_str(), '/');
        let ghost rps = split_seq(ps[0], '/');
        if repo_parts.len() >= 2 {
            proof {
                assert(repo_parts@.map_values(|t: String| t@)[0] == rps[0]);
                assert(repo_parts@.map_values(|t: String| t@)[1] == rps[1]);
            }
            let owner = repo_parts[0].clone();
            let repo = repo_parts[1].clone();
            let reference = if parts.len() > 1 {
                proof {
                    assert(parts@.map_values(|t: String| t@)[1] == ps[1]);
                }
                parts[1].clone()
            } else {
                "main".to_owned()
            };
            return Ok((owner, repo, reference));
        }
        let mut m = "Could not extract GitHub details from URL: ".to_owned();
        m.append(url);
        Err(m)
    } else {
        let mut m = "Could not extract GitHub details from URL: ".to_owned();
        m.append(url);
        Err(m)
    }
}

/// The registry name embedded before an `@npm:` marker, or the fallback.
pub open spec fn npm_package_name_of(res: Seq<char>, fallback: Seq<char>) -> Seq<char> {
    if occurs(res, "@npm:"@) {
        res.subrange(0, index_of(res, "@npm:"@))
    } else {
        fallback
    }
}

/// Extract the plain npm package name from a resolution string, falling back
/// to the given name.
pub fn extract_npm_package_name(resolution: &str, fallback_name: &str) -> (r: String)
    ensures
        r@ == npm_package_name_of(resolution@, fallback_name@),
{
    match find_str(resolution, "@npm:") {
        Some(i) => {
            proof {
                reveal_strlit("@npm:");
                lemma_index_of_occurs(resolution@, "@npm:"@);
            }
            substr_copy(resolution, 0, i)
        },
        None => fallback_name.to_owned(),
    }
}

/// The URL a package is reported under, derived from its name and resolution.
pub open spec fn determine_package_url_of(name: Seq<char>, res: Seq<char>) -> Seq<char> {
    if has_prefix(name, "github:"@) {
        "https://github.com/"@ + strip_prefix_all(name, "github:"@)
    } else if occurs(res, "github:"@) {
        "https://github.com/"@ + github_repo_path_of(res)
    } else if occurs(res, "github.com"@) {
        let sub = res.subrange(index_of(res, "github.com"@), res.len() as int);
        if occurs(sub, ".git"@) {
            sub.subrange(0, index_of(sub, ".git"@))
        } else {
            sub
        }
    } else {
        "https://www.npmjs.com/package/"@ + name
    }
}

/// Determine the URL a package is reported under.
pub fn determine_package_url(name: &str, resolution: &str) -> (r: String)
    ensures
        r@ == determine_package_url_of(name@, resolution@),
{
    if starts_with_str(name, "github:") {
        proof {
            reveal_strlit("github:");
        }
        let stripped = strip_prefix_all_str(name, "github:");
        let mut u = "https://github.com/".to_owned();
        u.append(stripped.as_str());
        u
    } else if contains_str(resolution, "github:") {
        let path = github_repo_path(resolution);
        let mut u = "https://github.com/".to_owned();
        u.append(path.as_str());
        u
    } else if let Some(i) = find_str(resolution, "github.com") {
        proof {
            reveal_strlit("github.com");
            lemma_index_of_occurs(resolution@, "github.com"@);
        }
        let reslen = resolution.unicode_len();
        let sub = substr_copy(resolution, i, reslen);
        match find_str(sub.as_str(), ".git") {
            Some(e) => {
                proof {
                    reveal_strlit(".git");
                    lemma_index_of_occurs(sub@, ".git"@);
                }
                substr_copy(sub.as_str(), 0, e)
            },
            None => sub,
        }
    } else {
        let mut u = "https://www.npmjs.com/package/".to_owned();
        u.append(name);
        u
    }
}

/// The normalized name part of a unique package key.
pub open spec fn unique_key_name_of(name: Seq<char>) -> Seq<char> {
    if has_prefix(name, "github:"@) {
        lower_of(strip_prefix_all(name, "github:"@))
    } else {
        lower_of(name)
    }
}

/// The normalized version part of a unique package key: range markers
/// stripped, kept up to the first pre-release separator.
pub open spec fn unique_key_version_of(version: Seq<char>) -> Seq<char> {
    let v = strip_prefix_all(strip_prefix_all(version, "^"@), "~"@);
    if has_char(v, '-') {
        v.subrange(0, index_of_char(v, '-'))
    } else {
        v
    }
}

/// The deduplication key of a package for reporting: normalized name,
/// version and URL joined with bars.
pub open spec fn unique_key_of(p: PkgV) -> Seq<char> {
    unique_key_name_of(p.name) + "|"@ + unique_key_version_of(p.version) + "|"@ + lower_of(p.url)
}

/// Generate a consistent unique key for a package by normalizing its name,
/// version and URL.
pub fn generate_unique_package_key(package: &Package) -> (r: String)
    ensures
        r@ == unique_key_of(package.pv()),
{
    let name_part = if starts_with_str(package.name.as_str(), "github:") {
        proof {
            reveal_strlit("github:");
        }
        let stripped = strip_prefix_all_str(package.name.as_str(), "github:");
        lowercase(stripped.as_str())
    } else {
        lowercase(package.name.as_str())
    };
    proof {
        reveal_strlit("^");
        reveal_strlit("~");
    }
    let v1 = strip_prefix_all_str(package.version.as_str(), "^");
    let v2 = strip_prefix_all_str(v1.as_str(), "~");
    let version_part = match find_char_str(v2.as_str(), '-') {
        Some(i) => {
            proof {
                crate::strutil::lemma_index_of_char_occurs(v2@, '-');
            }
            substr_copy(v2.as_str(), 0, i)
        },
        None => v2,
    };
    let url_part = lowercase(package.url.as_str());
    let mut out = name_part;
    out.append("|");
    out.append(version_part.as_str());
    out.append("|");
    out.append(url_part.as_str());
    out
}

/// The registry family an identity is resolved against.
pub enum ResolverKind {
    /// Already fully resolved at parse time.
    Nuget,
    /// Resolved against the Python package index.
    Pypi,
    /// Resolved against the source repository's API.
    Github,
    /// Resolved against the npm registry, the default.
    Npm,
}

/// Which resolver an identity is dispatched to: stored registry first, then
/// source-repository markers in the resolution or name, npm otherwise.
pub fn classify_resolver(package: &Package) -> (r: ResolverKind)
    ensures
        r is Nuget <==> package.pv().registry == "nuget"@,
        r is Pypi <==> (package.pv().registry != "nuget"@ && package.pv().registry == "pypi"@),
        r is Github <==> (package.pv().registry != "nuget"@ && package.pv().registry != "pypi"@
            && (has_prefix(package.pv().resolution, "https://github.com"@) || has_prefix(
            package.pv().name,
            "github:"@,
        ))),
        r is Npm <==> (package.pv().registry != "nuget"@ && package.pv().registry != "pypi"@
            && !has_prefix(package.pv().resolution, "https://github.com"@) && !has_prefix(
            package.pv().name,
            "github:"@,
        )),
{
    if crate::strutil::str_eq(package.registry.as_str(), "nuget") {
        ResolverKind::Nuget
    } else if crate::strutil::str_eq(package.registry.as_str(), "pypi") {
        ResolverKind::Pypi
    } else if starts_with_str(package.resolution.as_str(), "https://github.com") || starts_with_str(
        package.name.as_str(),
        "github:",
    ) {
        ResolverKind::Github
    } else {
        ResolverKind::Npm
    }
}

/// Whether a package line is shown, given its compliance and the output
/// flags: debug shows everything, unknown-mode shows only unknown licenses,
/// otherwise violations always show and the rest only when verbose.
pub fn should_display_package(
    package: &Package,
    is_allowed: bool,
    args_unknown: bool,
    args_verbose: bool,
    args_debug: bool,
) -> (r: bool)
    ensures
        r == if args_debug {
            true
        } else if args_unknown {
            package.pv().license == "UNKNOWN"@
        } else {
            !is_allowed || args_verbose
        },
{
    if args_debug {
        true
    } else if args_unknown {
        crate::strutil::str_eq(package.license.as_str(), "UNKNOWN")
    } else if !is_allowed || args_verbose {
        true
    } else {
        false
    }
}

} // verus!
