use depscan::pkg::{LockfilePackage, Package};
use depscan::urls::{
    classify_resolver, determine_package_url, extract_github_details, extract_github_url,
    extract_npm_package_name, generate_unique_package_key, is_archive_url, normalize_github_url,
    package_resolution_is_github, should_display_package, ResolverKind,
};
use depscan::yarn::{extract_package_name, parse_yarn_lock};

#[test]
fn lockfile_parser_test_extract_package_name() {
    assert_eq!(extract_package_name("lodash@^4.17.21"), "lodash");
    assert_eq!(extract_package_name("@babel/core@^7.0.0"), "@babel/core");
    assert_eq!(extract_package_name("get-intrinsic@npm:^1.2.4"), "get-intrinsic");
    assert_eq!(
        extract_package_name("get-intrinsic@npm:^1.2.4, get-intrinsic@npm:^1.2.5"),
        "get-intrinsic"
    );
}

#[test]
fn yarn_parser_test_extract_package_name() {
    assert_eq!(extract_package_name("lodash@^4.17.21"), "lodash");
    assert_eq!(extract_package_name("@babel/core@^7.0.0"), "@babel/core");
    assert_eq!(extract_package_name("get-intrinsic@npm:^1.2.4"), "get-intrinsic");
    assert_eq!(
        extract_package_name("get-intrinsic@npm:^1.2.4, get-intrinsic@npm:^1.2.5"),
        "get-intrinsic"
    );
}

#[test]
fn parse_yarn_lock_reads_entries() {
    let content = "# THIS IS AN AUTOGENERATED FILE. DO NOT EDIT THIS FILE DIRECTLY.\n# yarn lockfile v1\n\n\nlodash@^4.17.21:\n  version \"4.17.21\"\n  resolved \"https://registry.yarnpkg.com/lodash/-/lodash-4.17.21.tgz#679591c564c3bffaae8454cf0b3df370c3d6911c\"\n  integrity sha512-v2kDEe57lecTulaDIuNTPy3Ry4gLGJ6Z1O3vE1krgXZNrsQ+LFTGHVxVjcXPs17LhbZVGedAJv8XZ1tvj5FvSg==\n";
    let packages = parse_yarn_lock(content);
    assert_eq!(packages.len(), 1);
    assert_eq!(packages[0].name, "lodash");
    assert_eq!(packages[0].version, "4.17.21");
    // No resolution descriptor: the entry name is kept as the resolution.
    assert_eq!(packages[0].resolution, "lodash");
    assert_eq!(packages[0].url, "https://www.npmjs.com/package/lodash");
    // No checksum descriptor: a fallback checksum is generated.
    let checksum = packages[0].checksum.as_ref().unwrap();
    assert!(checksum.starts_with("fallback:"));
    assert_eq!(checksum.len(), "fallback:".len() + 64);
}

#[test]
fn parse_yarn_lock_rejects_garbage() {
    assert_eq!(parse_yarn_lock("not a lockfile at all }{").len(), 0);
}

#[test]
fn parse_yarn_lock_skips_local_packages() {
    let content = "# THIS IS AN AUTOGENERATED FILE. DO NOT EDIT THIS FILE DIRECTLY.\n# yarn lockfile v1\n\n\nmyapp@workspace:\n  version \"0.0.0-use.local\"\n  resolved \"myapp@workspace:.\"\n";
    let packages = parse_yarn_lock(content);
    assert_eq!(packages.len(), 0);
}

#[test]
fn archive_url_suffixes() {
    assert!(is_archive_url("https://example.com/pkg.zip"));
    assert!(is_archive_url("https://example.com/pkg.tar.gz"));
    assert!(is_archive_url("https://example.com/pkg.tgz"));
    assert!(!is_archive_url("https://registry.npmjs.org/lodash"));
    assert!(!is_archive_url("pkg.zip.txt"));
}

#[test]
fn normalize_github_urls() {
    assert_eq!(
        normalize_github_url("git+https://github.com/foo/bar.git"),
        Some("https://github.com/foo/bar".to_string())
    );
    assert_eq!(
        normalize_github_url("git://github.com/foo/bar.git"),
        Some("https://github.com/foo/bar".to_string())
    );
    assert_eq!(
        normalize_github_url("https://github.com/foo/bar/tree/main"),
        Some("https://github.com/foo/bar".to_string())
    );
    assert_eq!(normalize_github_url("https://example.com/foo/bar"), None);
    assert_eq!(normalize_github_url("https://github.com/foo"), None);
}

#[test]
fn github_details_from_https_url() {
    let (owner, repo, reference) =
        extract_github_details("https://github.com/foo/bar/tree/dev").unwrap();
    assert_eq!(owner, "foo");
    assert_eq!(repo, "bar");
    assert_eq!(reference, "dev");
    let (owner, repo, reference) = extract_github_details("https://github.com/foo/bar").unwrap();
    assert_eq!(owner, "foo");
    assert_eq!(repo, "bar");
    assert_eq!(reference, "main");
}

#[test]
fn github_details_from_shorthand() {
    let (owner, repo, reference) = extract_github_details("github:foo/bar#v1.2.3").unwrap();
    assert_eq!(owner, "foo");
    assert_eq!(repo, "bar");
    assert_eq!(reference, "v1.2.3");
    assert!(extract_github_details("https://gitlab.com/foo/bar").is_err());
}

#[test]
fn github_url_from_resolution() {
    assert_eq!(
        extract_github_url("github:foo/bar#abc123"),
        Some("https://github.com/foo/bar".to_string())
    );
    assert_eq!(extract_github_url("https://registry.npmjs.org/x"), None);
}

#[test]
fn npm_name_from_resolution() {
    assert_eq!(extract_npm_package_name("lodash@npm:^4.17.21", "fallback"), "lodash");
    assert_eq!(extract_npm_package_name("no marker here", "fallback"), "fallback");
}

#[test]
fn resolution_classification() {
    assert!(package_resolution_is_github("github:foo/bar"));
    assert!(package_resolution_is_github("https://github.com/foo/bar"));
    assert!(!package_resolution_is_github("https://registry.npmjs.org/lodash"));
}

#[test]
fn package_urls() {
    assert_eq!(
        determine_package_url("github:foo/bar", "whatever"),
        "https://github.com/foo/bar"
    );
    assert_eq!(
        determine_package_url("x", "github:foo/bar#ref"),
        "https://github.com/foo/bar"
    );
    // Without the shorthand marker, the URL is cut out of the resolution
    // from the host name up to the repository suffix.
    assert_eq!(
        determine_package_url("x", "https://github.com/foo/bar.git#abc"),
        "github.com/foo/bar"
    );
    assert_eq!(
        determine_package_url("lodash", "https://registry.npmjs.org/lodash"),
        "https://www.npmjs.com/package/lodash"
    );
}

#[test]
fn unique_key_normalizes() {
    let mut p = Package::new(
        "Lodash".to_string(),
        "^4.17.21-beta.1".to_string(),
        String::new(),
        None,
    );
    p.url = "https://Example.com/X".to_string();
    assert_eq!(generate_unique_package_key(&p), "lodash|4.17.21|https://example.com/x");

    let q = Package::new("github:Foo/Bar".to_string(), "~1.0.0".to_string(), String::new(), None);
    assert_eq!(generate_unique_package_key(&q), "foo/bar|1.0.0|");
}

#[test]
fn display_rules() {
    let mut p = Package::new("a".to_string(), "1".to_string(), String::new(), None);
    p.license = "UNKNOWN".to_string();
    assert!(should_display_package(&p, true, false, false, true));
    assert!(should_display_package(&p, true, true, false, false));
    p.license = "MIT".to_string();
    assert!(!should_display_package(&p, true, true, false, false));
    assert!(should_display_package(&p, false, false, false, false));
    assert!(!should_display_package(&p, true, false, false, false));
    assert!(should_display_package(&p, true, false, true, false));
}

#[test]
fn resolver_dispatch() {
    let mut p = Package::new("a".to_string(), "1".to_string(), String::new(), None);
    p.registry = "nuget".to_string();
    assert!(matches!(classify_resolver(&p), ResolverKind::Nuget));
    p.registry = "pypi".to_string();
    assert!(matches!(classify_resolver(&p), ResolverKind::Pypi));
    p.registry = String::new();
    p.resolution = "https://github.com/foo/bar".to_string();
    assert!(matches!(classify_resolver(&p), ResolverKind::Github));
    p.resolution = "https://registry.npmjs.org/a".to_string();
    assert!(matches!(classify_resolver(&p), ResolverKind::Npm));
    p.name = "github:foo/bar".to_string();
    assert!(matches!(classify_resolver(&p), ResolverKind::Github));
}

#[test]
fn lockfile_package_conversion() {
    let lp = LockfilePackage {
        name: "left-pad".to_string(),
        version: "1.3.0".to_string(),
        resolution: "https://registry.npmjs.org/left-pad/-/left-pad-1.3.0.tgz".to_string(),
        checksum: Some("abc".to_string()),
    };
    let p = lp.to_package();
    assert_eq!(p.name, "left-pad");
    assert_eq!(p.version, "1.3.0");
    assert_eq!(p.resolution, "https://registry.npmjs.org/left-pad/-/left-pad-1.3.0.tgz");
    assert_eq!(p.checksum, Some("abc".to_string()));
    assert!(!p.processed);
    assert!(p.dependencies.is_empty());
}

#[test]
fn package_display_name_and_flags() {
    let mut p = Package::new("a".to_string(), "1.0".to_string(), String::new(), None);
    assert_eq!(p.display_name(), "a@1.0");
    p.display_name = "custom".to_string();
    assert_eq!(p.display_name(), "custom");
    assert!(!p.is_processed());
    p.mark_processed();
    assert!(p.is_processed());
}

#[test]
fn error_package_fields() {
    let p = Package::with_error(
        "broken".to_string(),
        "2.0".to_string(),
        "npm",
        "https://www.npmjs.com/package/broken".to_string(),
        "lookup failed",
    );
    assert_eq!(p.license, "UNKNOWN");
    assert_eq!(p.display_name, "broken@2.0");
    assert_eq!(p.debug_info, Some("lookup failed".to_string()));
    assert!(p.processed);
}
