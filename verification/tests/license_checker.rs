use depscan::license::{
    detect_license_from_text, get_license_url, normalize_license_id, LicenseChecker,
};

#[test]
fn test_exact_match() {
    let checker = LicenseChecker::new(vec!["MIT".to_string()]);
    assert!(checker.is_allowed("MIT"));
    assert!(!checker.is_allowed("Apache-2.0"));
}

#[test]
fn test_wildcard_match() {
    let checker = LicenseChecker::new(vec!["Apache*".to_string()]);
    assert!(checker.is_allowed("Apache-2.0"));
    assert!(checker.is_allowed("Apache"));
    assert!(!checker.is_allowed("MIT"));
}

#[test]
fn test_multiple_patterns() {
    let checker = LicenseChecker::new(vec!["MIT".to_string(), "ISC".to_string()]);
    assert!(checker.is_allowed("MIT"));
    assert!(checker.is_allowed("ISC"));
    assert!(!checker.is_allowed("GPL-3.0"));
}

#[test]
fn test_empty_patterns() {
    let checker = LicenseChecker::new(vec![]);
    assert!(checker.is_allowed("MIT"));
    assert!(checker.is_allowed("Any-License"));
}

#[test]
fn wildcard_dot_is_literal() {
    let checker = LicenseChecker::new(vec!["GPL-3.0".to_string()]);
    assert!(checker.is_allowed("GPL-3.0"));
    // The dot is escaped, so it must not match an arbitrary character.
    assert!(!checker.is_allowed("GPL-3x0"));
}

#[test]
fn normalize_known_variations() {
    assert_eq!(normalize_license_id("mit"), "MIT");
    assert_eq!(normalize_license_id("MIT"), "MIT");
    assert_eq!(normalize_license_id("Apache 2.0"), "Apache-2.0");
    assert_eq!(normalize_license_id("apache2"), "Apache-2.0");
    assert_eq!(normalize_license_id("bsd"), "BSD-3-Clause");
    assert_eq!(normalize_license_id("gplv3"), "GPL-3.0");
    assert_eq!(normalize_license_id("gpl-2"), "GPL-2.0");
    assert_eq!(normalize_license_id("public domain"), "Unlicense");
}

#[test]
fn normalize_trims_whitespace() {
    assert_eq!(normalize_license_id("  isc license  "), "ISC");
    assert_eq!(normalize_license_id(" BSD-2 "), "BSD-2-Clause");
}

#[test]
fn normalize_is_idempotent() {
    let spellings = [
        "mit", "MIT", "Apache 2.0", "apache2", "apache 2", "apache2.0", "bsd", "bsd-3", "bsd-2",
        "gpl", "gpl3", "gplv3", "gpl-3", "gpl2", "gplv2", "gpl-2", "isc license", "public domain",
        "  MIT  ", "Custom-License-1.0", "", "BSD-3-Clause", "GPL-3.0", "Unlicense", "ISC",
    ];
    for s in spellings {
        let once = normalize_license_id(s);
        assert_eq!(normalize_license_id(&once), once);
    }
}

#[test]
fn normalize_keeps_unknown_spellings() {
    assert_eq!(normalize_license_id("Custom-License-1.0"), "Custom-License-1.0");
    assert_eq!(normalize_license_id(""), "");
}

#[test]
fn detect_mit_from_text() {
    let text = "The MIT License (MIT)\n\nCopyright (c) 2020 Example";
    assert_eq!(detect_license_from_text(text), Some("MIT".to_string()));
}

#[test]
fn detect_apache_from_text() {
    let text = "Licensed under the Apache License, Version 2.0 (the \"License\")";
    assert_eq!(detect_license_from_text(text), Some("Apache-2.0".to_string()));
}

#[test]
fn detect_unlicense_from_text() {
    let text = "This is free and unencumbered software released into the public domain.";
    assert_eq!(detect_license_from_text(text), Some("Unlicense".to_string()));
}

#[test]
fn detect_nothing_from_plain_text() {
    assert_eq!(detect_license_from_text("hello world"), None);
}

#[test]
fn license_url_lookup() {
    assert_eq!(
        get_license_url("MIT"),
        Some("https://opensource.org/licenses/MIT".to_string())
    );
    assert_eq!(
        get_license_url("GPL-3.0-or-later"),
        Some("https://www.gnu.org/licenses/gpl-3.0.en.html".to_string())
    );
    assert_eq!(get_license_url("No-Such-License"), None);
    assert_eq!(get_license_url("mit"), None);
}
