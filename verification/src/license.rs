use vstd::prelude::*;

use crate::strutil::{lower_of, lowercase, replace_seq, replace_str, str_eq, trim_of, trim_str};

verus! {

// License pattern matching and identifier normalization.

/// Whether `regex::Regex::new` accepts the pattern: a function of the
/// pattern alone.
pub uninterp spec fn regex_accepts(pattern: Seq<char>) -> bool;

/// What `regex::Regex::is_match` answers for a compiled pattern and a text:
/// a function of the two strings alone.
pub uninterp spec fn regex_match_of(pattern: Seq<char>, text: Seq<char>) -> bool;

/// Relies on regex::Regex::new and regex::Regex::is_match: whether the
/// pattern compiles depends on the pattern alone, and the match answer on
/// the pattern and the text alone.
#[verifier::external_body]
fn regex_is_match(pattern: &str, text: &str) -> (r: Option<bool>)
    ensures
        r is Some <==> regex_accepts(pattern@),
        r is Some ==> r == Some(regex_match_of(pattern@, text@)),
{
    match regex::Regex::new(pattern) {
        Ok(re) => Some(re.is_match(text)),
        Err(_) => None,
    }
}

/// The anchored regular expression a wildcard pattern is turned into:
/// dots escaped, stars made to match any sequence.
pub open spec fn wildcard_regex_of(pattern: Seq<char>) -> Seq<char> {
    "^"@ + replace_seq(replace_seq(pattern, "."@, "\\."@), "*"@, ".*"@) + "$"@
}

/// A license string matches a wildcard pattern: by the anchored regular
/// expression built from the pattern, or verbatim when that expression does
/// not compile.
pub open spec fn spec_matches_pattern(license: Seq<char>, pattern: Seq<char>) -> bool {
    if regex_accepts(wildcard_regex_of(pattern)) {
        regex_match_of(wildcard_regex_of(pattern), license)
    } else {
        license == pattern
    }
}

/// Checks license identifiers against a list of allowed patterns.
pub struct LicenseChecker {
    allowed_patterns: Vec<String>,
}

impl LicenseChecker {
    /// The allowed patterns, in order.
    pub closed spec fn patterns(self) -> Seq<Seq<char>> {
        self.allowed_patterns@.map_values(|s: String| s@)
    }

    /// A license is allowed when no patterns are configured, or when some
    /// pattern matches it.
    pub open spec fn spec_is_allowed(self, license: Seq<char>) -> bool {
        self.patterns().len() == 0 || exists|i: int|
            0 <= i < self.patterns().len() && spec_matches_pattern(license, self.patterns()[i])
    }

    pub fn new(allowed_licenses: Vec<String>) -> (r: LicenseChecker)
        ensures
            r.patterns() == allowed_licenses@.map_values(|s: String| s@),
    {
        LicenseChecker { allowed_patterns: allowed_licenses }
    }

    fn matches_pattern(license: &str, pattern: &str) -> (r: bool)
        ensures
            r == spec_matches_pattern(license@, pattern@),
    {
        proof {
            reveal_strlit(".");
            reveal_strlit("*");
        }
        let escaped = replace_str(pattern, ".", "\\.");
        let widened = replace_str(escaped.as_str(), "*", ".*");
        let mut regex_str = "^".to_owned();
        regex_str.append(widened.as_str());
        regex_str.append("$");
        proof {
            assert(regex_str@ == wildcard_regex_of(pattern@));
        }
        match regex_is_match(regex_str.as_str(), license) {
            Some(b) => b,
            None => str_eq(license, pattern),
        }
    }

    /// Decide whether a license identifier is allowed.
    pub fn is_allowed(&self, license: &str) -> (r: bool)
        ensures
            r == self.spec_is_allowed(license@),
    {
        let n = self.allowed_patterns.len();
        if n == 0 {
            return true;
        }
        let mut i: usize = 0;
        while i < n
            invariant
                i <= n,
                n == self.allowed_patterns@.len(),
                forall|j: int|
                    0 <= j < i ==> !spec_matches_pattern(license@, #[trigger] self.patterns()[j]),
            decreases n - i,
        {
            if Self::matches_pattern(license, self.allowed_patterns[i].as_str()) {
                proof {
                    assert(spec_matches_pattern(license@, self.patterns()[i as int]));
                }
                return true;
            }
            i += 1;
        }
        false
    }
}

/// The canonical identifier for a trimmed, lowercased license spelling, when
/// one of the common variations is recognised.
pub open spec fn canonical_license_of(folded: Seq<char>) -> Option<Seq<char>> {
    if folded == "mit"@ {
        Some("MIT"@)
    } else if folded == "apache2"@ || folded == "apache 2"@ || folded == "apache2.0"@ || folded
        == "apache 2.0"@ {
        Some("Apache-2.0"@)
    } else if folded == "bsd"@ {
        Some("BSD-3-Clause"@)
    } else if folded == "bsd-3"@ {
        Some("BSD-3-Clause"@)
    } else if folded == "bsd-2"@ {
        Some("BSD-2-Clause"@)
    } else if folded == "gpl"@ || folded == "gpl3"@ || folded == "gplv3"@ || folded == "gpl-3"@ {
        Some("GPL-3.0"@)
    } else if folded == "gpl2"@ || folded == "gplv2"@ || folded == "gpl-2"@ {
        Some("GPL-2.0"@)
    } else if folded == "isc license"@ {
        Some("ISC"@)
    } else if folded == "public domain"@ {
        Some("Unlicense"@)
    } else {
        None
    }
}

/// What `normalize_license_id` returns: the canonical identifier of the
/// trimmed and lowercased input, or the input unchanged.
pub open spec fn normalized_license_of(license: Seq<char>) -> Seq<char> {
    match canonical_license_of(lower_of(trim_of(license))) {
        Some(c) => c,
        None => license,
    }
}

/// The canonical identifier for an already trimmed and lowercased license
/// spelling.
pub fn canonical_license_for(folded: &str) -> (r: Option<String>)
    ensures
        match r {
            Some(c) => canonical_license_of(folded@) == Some(c@),
            None => canonical_license_of(folded@) is None,
        },
{
    if str_eq(folded, "mit") {
        Some("MIT".to_owned())
    } else if str_eq(folded, "apache2") || str_eq(folded, "apache 2") || str_eq(folded, "apache2.0")
        || str_eq(folded, "apache 2.0") {
        Some("Apache-2.0".to_owned())
    } else if str_eq(folded, "bsd") {
        Some("BSD-3-Clause".to_owned())
    } else if str_eq(folded, "bsd-3") {
        Some("BSD-3-Clause".to_owned())
    } else if str_eq(folded, "bsd-2") {
        Some("BSD-2-Clause".to_owned())
    } else if str_eq(folded, "gpl") || str_eq(folded, "gpl3") || str_eq(folded, "gplv3") || str_eq(
        folded,
        "gpl-3",
    ) {
        Some("GPL-3.0".to_owned())
    } else if str_eq(folded, "gpl2") || str_eq(folded, "gplv2") || str_eq(folded, "gpl-2") {
        Some("GPL-2.0".to_owned())
    } else if str_eq(folded, "isc license") {
        Some("ISC".to_owned())
    } else if str_eq(folded, "public domain") {
        Some("Unlicense".to_owned())
    } else {
        None
    }
}

/// Clean up commonly found license spelling variations.
pub fn normalize_license_id(license: &str) -> (r: String)
    ensures
        r@ == normalized_license_of(license@),
{
    let trimmed = trim_str(license);
    let folded = lowercase(trimmed);
    match canonical_license_for(folded.as_str()) {
        Some(c) => c,
        None => license.to_owned(),
    }
}

/// The facts about trimming and lowercasing that make normalization
/// idempotent: both fix the plain ASCII identifiers the alias table can
/// produce. True of the standard library, but its documentation does not
/// state the value of `trim` and `to_lowercase` on particular strings, so
/// no trusted item asserts these; they are carried as a named hypothesis.
pub open spec fn folding_fixes_canonical_ids() -> bool {
    &&& trim_of("MIT"@) == "MIT"@ && lower_of("MIT"@) == "mit"@
    &&& trim_of("Apache-2.0"@) == "Apache-2.0"@ && lower_of("Apache-2.0"@) == "apache-2.0"@
    &&& trim_of("BSD-3-Clause"@) == "BSD-3-Clause"@ && lower_of("BSD-3-Clause"@)
        == "bsd-3-clause"@
    &&& trim_of("BSD-2-Clause"@) == "BSD-2-Clause"@ && lower_of("BSD-2-Clause"@)
        == "bsd-2-clause"@
    &&& trim_of("GPL-3.0"@) == "GPL-3.0"@ && lower_of("GPL-3.0"@) == "gpl-3.0"@
    &&& trim_of("GPL-2.0"@) == "GPL-2.0"@ && lower_of("GPL-2.0"@) == "gpl-2.0"@
    &&& trim_of("ISC"@) == "ISC"@ && lower_of("ISC"@) == "isc"@
    &&& trim_of("Unlicense"@) == "Unlicense"@ && lower_of("Unlicense"@) == "unlicense"@
}

/// Normalization is idempotent: every output of `normalize_license_id` is a
/// fixed point. An unrecognised spelling comes back unchanged, so it is a
/// fixed point outright; a recognised one maps to a canonical identifier,
/// which the hypothesis above shows normalizes to itself.
pub proof fn lemma_normalize_idempotent(s: Seq<char>)
    ensures
        folding_fixes_canonical_ids() ==> normalized_license_of(normalized_license_of(s))
            == normalized_license_of(s),
{
    if folding_fixes_canonical_ids() {
        reveal_strlit("MIT");
        reveal_strlit("mit");
        reveal_strlit("Apache-2.0");
        reveal_strlit("apache-2.0");
        reveal_strlit("BSD-3-Clause");
        reveal_strlit("bsd-3-clause");
        reveal_strlit("BSD-2-Clause");
        reveal_strlit("bsd-2-clause");
        reveal_strlit("GPL-3.0");
        reveal_strlit("gpl-3.0");
        reveal_strlit("GPL-2.0");
        reveal_strlit("gpl-2.0");
        reveal_strlit("ISC");
        reveal_strlit("isc");
        reveal_strlit("Unlicense");
        reveal_strlit("unlicense");
        reveal_strlit("apache2");
        reveal_strlit("apache 2");
        reveal_strlit("apache2.0");
        reveal_strlit("apache 2.0");
        reveal_strlit("bsd");
        reveal_strlit("bsd-3");
        reveal_strlit("bsd-2");
        reveal_strlit("gpl");
        reveal_strlit("gpl3");
        reveal_strlit("gplv3");
        reveal_strlit("gpl-3");
        reveal_strlit("gpl2");
        reveal_strlit("gplv2");
        reveal_strlit("gpl-2");
        reveal_strlit("isc license");
        reveal_strlit("public domain");
        assert("mit"@.len() == 3);
        assert("apache2"@.len() == 7);
        assert("apache 2"@.len() == 8);
        assert("apache2.0"@.len() == 9);
        assert("apache 2.0"@.len() == 10);
        assert("bsd"@.len() == 3);
        assert("bsd-3"@.len() == 5);
        assert("bsd-2"@.len() == 5);
        assert("gpl"@.len() == 3);
        assert("gpl3"@.len() == 4);
        assert("gplv3"@.len() == 5);
        assert("gpl-3"@.len() == 5);
        assert("gpl2"@.len() == 4);
        assert("gplv2"@.len() == 5);
        assert("gpl-2"@.len() == 5);
        assert("isc license"@.len() == 11);
        assert("public domain"@.len() == 13);
        assert("apache-2.0"@.len() == 10);
        assert("bsd-3-clause"@.len() == 12);
        assert("bsd-2-clause"@.len() == 12);
        assert("gpl-3.0"@.len() == 7);
        assert("gpl-2.0"@.len() == 7);
        assert("isc"@.len() == 3);
        assert("unlicense"@.len() == 9);
        assert("apache-2.0"@[6] == '-' && "apache 2.0"@[6] == ' ');
        assert("gpl-3.0"@[0] == 'g' && "gpl-2.0"@[0] == 'g' && "apache2"@[0] == 'a');
        assert("isc"@[0] == 'i' && "mit"@[0] == 'm' && "bsd"@[0] == 'b' && "gpl"@[0] == 'g');
        assert("unlicense"@[0] == 'u' && "apache2.0"@[0] == 'a');
        assert(normalized_license_of("MIT"@) == "MIT"@);
        assert(canonical_license_of("apache-2.0"@) is None);
        assert(normalized_license_of("Apache-2.0"@) == "Apache-2.0"@);
        assert(canonical_license_of("bsd-3-clause"@) is None);
        assert(normalized_license_of("BSD-3-Clause"@) == "BSD-3-Clause"@);
        assert(canonical_license_of("bsd-2-clause"@) is None);
        assert(normalized_license_of("BSD-2-Clause"@) == "BSD-2-Clause"@);
        assert(canonical_license_of("gpl-3.0"@) is None);
        assert(normalized_license_of("GPL-3.0"@) == "GPL-3.0"@);
        assert(canonical_license_of("gpl-2.0"@) is None);
        assert(normalized_license_of("GPL-2.0"@) == "GPL-2.0"@);
        assert(canonical_license_of("isc"@) is None);
        assert(normalized_license_of("ISC"@) == "ISC"@);
        assert(canonical_license_of("unlicense"@) is None);
        assert(normalized_license_of("Unlicense"@) == "Unlicense"@);
        match canonical_license_of(lower_of(trim_of(s))) {
            Some(c) => {
                assert(c == "MIT"@ || c == "Apache-2.0"@ || c == "BSD-3-Clause"@ || c
                    == "BSD-2-Clause"@ || c == "GPL-3.0"@ || c == "GPL-2.0"@ || c == "ISC"@ || c
                    == "Unlicense"@);
            },
            None => {},
        }
    }
}

/// The license text patterns matched against license files, with the
/// identifier each one detects.
pub open spec fn license_pattern_table() -> Seq<(Seq<char>, Seq<char>)> {
    seq![
        (
            "MIT"@,
            "(?i)(Permission is hereby granted, free of charge,.*MIT License|The MIT License \\(MIT\\)|MIT License Copyright|Permission is hereby granted, free of charge,.*subject to the following conditions)"@,
        ),
        (
            "Apache-2.0"@,
            "(?i)(Apache License.*Version 2\\.0|Licensed under the Apache License, Version 2\\.0)"@,
        ),
        ("GPL-3.0"@, "(?i)GNU General Public License.*Version 3"@),
        ("GPL-2.0"@, "(?i)GNU General Public License.*Version 2"@),
        (
            "BSD-3-Clause"@,
            "(?i)(redistribution and use.*permitted provided that.*conditions are met.*neither the name.*nor the names of|The 3-Clause BSD License|3-Clause BSD License|3-clause BSD license)"@,
        ),
        (
            "BSD-2-Clause"@,
            "(?i)redistribution and use.*permitted provided that.*conditions are met.*binary form must"@,
        ),
        ("ISC"@, "(?i)ISC License.*Permission to use, copy, modify, and/or distribute"@),
        (
            "Unlicense"@,
            "(?i)This is free and unencumbered software released into the public domain"@,
        ),
        ("MPL-2.0"@, "(?i)(Mozilla Public License.*Version 2\\.0|MPL 2\\.0)"@),
        ("LGPL-2.1"@, "(?i)(GNU Lesser General Public License.*Version 2\\.1)"@),
        ("LGPL-3.0"@, "(?i)(GNU Lesser General Public License.*Version 3)"@),
        (
            "CC0-1.0"@,
            "(?i)(Creative Commons Legal Code.*CC0 1\\.0|CC0 1\\.0 Universal|The person.*waives all of his or her rights)"@,
        ),
        ("EPL-2.0"@, "(?i)(Eclipse Public License.*2\\.0|EPL-2\\.0)"@),
    ]
}

pub open spec fn detect_from(table: Seq<(Seq<char>, Seq<char>)>, text: Seq<char>, i: int) -> Option<
    Seq<char>,
>
    decreases table.len() - i,
        when 0 <= i
{
    if i >= table.len() {
        None
    } else if regex_accepts(table[i].1) && regex_match_of(table[i].1, text) {
        Some(table[i].0)
    } else {
        detect_from(table, text, i + 1)
    }
}

/// What `detect_license_from_text` returns: the identifier of the first
/// pattern in the table whose regular expression matches the text.
pub open spec fn detect_license_of(text: Seq<char>) -> Option<Seq<char>> {
    detect_from(license_pattern_table(), text, 0)
}

fn license_patterns() -> (r: Vec<(&'static str, &'static str)>)
    ensures
        r@.map_values(|e: (&'static str, &'static str)| (e.0@, e.1@)) == license_pattern_table(),
{
    let mut t: Vec<(&'static str, &'static str)> = Vec::new();
    t.push((
        "MIT",
        "(?i)(Permission is hereby granted, free of charge,.*MIT License|The MIT License \\(MIT\\)|MIT License Copyright|Permission is hereby granted, free of charge,.*subject to the following conditions)",
    ));
    t.push((
        "Apache-2.0",
        "(?i)(Apache License.*Version 2\\.0|Licensed under the Apache License, Version 2\\.0)",
    ));
    t.push(("GPL-3.0", "(?i)GNU General Public License.*Version 3"));
    t.push(("GPL-2.0", "(?i)GNU General Public License.*Version 2"));
    t.push((
        "BSD-3-Clause",
        "(?i)(redistribution and use.*permitted provided that.*conditions are met.*neither the name.*nor the names of|The 3-Clause BSD License|3-Clause BSD License|3-clause BSD license)",
    ));
    t.push((
        "BSD-2-Clause",
        "(?i)redistribution and use.*permitted provided that.*conditions are met.*binary form must",
    ));
    t.push(("ISC", "(?i)ISC License.*Permission to use, copy, modify, and/or distribute"));
    t.push((
        "Unlicense",
        "(?i)This is free and unencumbered software released into the public domain",
    ));
    t.push(("MPL-2.0", "(?i)(Mozilla Public License.*Version 2\\.0|MPL 2\\.0)"));
    t.push(("LGPL-2.1", "(?i)(GNU Lesser General Public License.*Version 2\\.1)"));
    t.push(("LGPL-3.0", "(?i)(GNU Lesser General Public License.*Version 3)"));
    t.push((
        "CC0-1.0",
        "(?i)(Creative Commons Legal Code.*CC0 1\\.0|CC0 1\\.0 Universal|The person.*waives all of his or her rights)",
    ));
    t.push(("EPL-2.0", "(?i)(Eclipse Public License.*2\\.0|EPL-2\\.0)"));
    proof {
        assert(t@.map_values(|e: (&'static str, &'static str)| (e.0@, e.1@))
            =~= license_pattern_table());
    }
    t
}

/// Attempt to detect a license identifier from license text.
pub fn detect_license_from_text(text: &str) -> (r: Option<String>)
    ensures
        match r {
            Some(id) => detect_license_of(text@) == Some(id@),
            None => detect_license_of(text@) is None,
        },
{
    let table = license_patterns();
    let ghost tv = license_pattern_table();
    let n = table.len();
    let mut i: usize = 0;
    while i < n
        invariant
            i <= n,
            n == tv.len(),
            tv == license_pattern_table(),
            table@.map_values(|e: (&'static str, &'static str)| (e.0@, e.1@)) == tv,
            detect_from(tv, text@, 0) == detect_from(tv, text@, i as int),
        decreases n - i,
    {
        proof {
            assert(table@.map_values(|e: (&'static str, &'static str)| (e.0@, e.1@))[i as int]
                == tv[i as int]);
        }
        match regex_is_match(table[i].1, text) {
            Some(true) => {
                proof {
                    assert(detect_from(tv, text@, i as int) == Some(tv[i as int].0));
                }
                return Some(table[i].0.to_owned());
            },
            _ => {},
        }
        proof {
            assert(detect_from(tv, text@, i as int) == detect_from(tv, text@, i as int + 1));
        }
        i += 1;
    }
    None
}

/// The map of well-known license identifiers to their canonical URLs.
pub open spec fn license_url_table() -> Seq<(Seq<char>, Seq<char>)> {
    seq![
        ("MIT"@, "https://opensource.org/licenses/MIT"@),
        ("Apache-2.0"@, "https://opensource.org/licenses/Apache-2.0"@),
        ("BSD-2-Clause"@, "https://opensource.org/licenses/BSD-2-Clause"@),
        ("BSD-3-Clause"@, "https://opensource.org/licenses/BSD-3-Clause"@),
        ("GPL-2.0"@, "https://www.gnu.org/licenses/old-licenses/gpl-2.0.en.html"@),
        ("GPL-3.0"@, "https://www.gnu.org/licenses/gpl-3.0.en.html"@),
        ("LGPL-2.1"@, "https://www.gnu.org/licenses/old-licenses/lgpl-2.1.en.html"@),
        ("LGPL-3.0"@, "https://www.gnu.org/licenses/lgpl-3.0.en.html"@),
        ("ISC"@, "https://opensource.org/licenses/ISC"@),
        ("MPL-2.0"@, "https://opensource.org/licenses/MPL-2.0"@),
        ("CDDL-1.0"@, "https://opensource.org/licenses/CDDL-1.0"@),
        ("EPL-2.0"@, "https://opensource.org/licenses/EPL-2.0"@),
        ("CC0-1.0"@, "https://creativecommons.org/publicdomain/zero/1.0/"@),
        ("Unlicense"@, "https://unlicense.org/"@),
        ("Zlib"@, "https://opensource.org/licenses/Zlib"@),
        ("WTFPL"@, "http://www.wtfpl.net/"@),
        ("0BSD"@, "https://opensource.org/licenses/0BSD"@),
        ("Apache 2.0"@, "https://opensource.org/licenses/Apache-2.0"@),
        ("Apache License 2.0"@, "https://opensource.org/licenses/Apache-2.0"@),
        ("GPL-2.0-only"@, "https://www.gnu.org/licenses/old-licenses/gpl-2.0.en.html"@),
        ("GPL-2.0-or-later"@, "https://www.gnu.org/licenses/old-licenses/gpl-2.0.en.html"@),
        ("GPL-3.0-only"@, "https://www.gnu.org/licenses/gpl-3.0.en.html"@),
        ("GPL-3.0-or-later"@, "https://www.gnu.org/licenses/gpl-3.0.en.html"@),
    ]
}

pub open spec fn url_lookup_from(table: Seq<(Seq<char>, Seq<char>)>, license: Seq<char>, i: int) -> Option<
    Seq<char>,
>
    decreases table.len() - i,
        when 0 <= i
{
    if i >= table.len() {
        None
    } else if table[i].0 == license {
        Some(table[i].1)
    } else {
        url_lookup_from(table, license, i + 1)
    }
}

/// What `get_license_url` returns: the canonical URL recorded for the exact
/// license identifier, when one is recorded.
pub open spec fn license_url_of(license: Seq<char>) -> Option<Seq<char>> {
    url_lookup_from(license_url_table(), license, 0)
}

fn license_urls() -> (r: Vec<(&'static str, &'static str)>)
    ensures
        r@.map_values(|e: (&'static str, &'static str)| (e.0@, e.1@)) == license_url_table(),
{
    let mut t: Vec<(&'static str, &'static str)> = Vec::new();
    t.push(("MIT", "https://opensource.org/licenses/MIT"));
    t.push(("Apache-2.0", "https://opensource.org/licenses/Apache-2.0"));
    t.push(("BSD-2-Clause", "https://opensource.org/licenses/BSD-2-Clause"));
    t.push(("BSD-3-Clause", "https://opensource.org/licenses/BSD-3-Clause"));
    t.push(("GPL-2.0", "https://www.gnu.org/licenses/old-licenses/gpl-2.0.en.html"));
    t.push(("GPL-3.0", "https://www.gnu.org/licenses/gpl-3.0.en.html"));
    t.push(("LGPL-2.1", "https://www.gnu.org/licenses/old-licenses/lgpl-2.1.en.html"));
    t.push(("LGPL-3.0", "https://www.gnu.org/licenses/lgpl-3.0.en.html"));
    t.push(("ISC", "https://opensource.org/licenses/ISC"));
    t.push(("MPL-2.0", "https://opensource.org/licenses/MPL-2.0"));
    t.push(("CDDL-1.0", "https://opensource.org/licenses/CDDL-1.0"));
    t.push(("EPL-2.0", "https://opensource.org/licenses/EPL-2.0"));
    t.push(("CC0-1.0", "https://creativecommons.org/publicdomain/zero/1.0/"));
    t.push(("Unlicense", "https://unlicense.org/"));
    t.push(("Zlib", "https://opensource.org/licenses/Zlib"));
    t.push(("WTFPL", "http://www.wtfpl.net/"));
    t.push(("0BSD", "https://opensource.org/licenses/0BSD"));
    t.push(("Apache 2.0", "https://opensource.org/licenses/Apache-2.0"));
    t.push(("Apache License 2.0", "https://opensource.org/licenses/Apache-2.0"));
    t.push(("GPL-2.0-only", "https://www.gnu.org/licenses/old-licenses/gpl-2.0.en.html"));
    t.push(("GPL-2.0-or-later", "https://www.gnu.org/licenses/old-licenses/gpl-2.0.en.html"));
    t.push(("GPL-3.0-only", "https://www.gnu.org/licenses/gpl-3.0.en.html"));
    t.push(("GPL-3.0-or-later", "https://www.gnu.org/licenses/gpl-3.0.en.html"));
    proof {
        assert(t@.map_values(|e: (&'static str, &'static str)| (e.0@, e.1@))
            =~= license_url_table());
    }
    t
}

/// The canonical URL for a well-known license identifier, when recorded.
pub fn get_license_url(license: &str) -> (r: Option<String>)
    ensures
        match r {
            Some(u) => license_url_of(license@) == Some(u@),
            None => license_url_of(license@) is None,
        },
{
    let table = license_urls();
    let ghost tv = license_url_table();
    let n = table.len();
    let mut i: usize = 0;
    while i < n
        invariant
            i <= n,
            n == tv.len(),
            tv == license_url_table(),
            table@.map_values(|e: (&'static str, &'static str)| (e.0@, e.1@)) == tv,
            url_lookup_from(tv, license@, 0) == url_lookup_from(tv, license@, i as int),
        decreases n - i,
    {
        proof {
            assert(table@.map_values(|e: (&'static str, &'static str)| (e.0@, e.1@))[i as int]
                == tv[i as int]);
        }
        if str_eq(table[i].0, license) {
            proof {
                assert(url_lookup_from(tv, license@, i as int) == Some(tv[i as int].1));
            }
            return Some(table[i].1.to_owned());
        }
        proof {
            assert(url_lookup_from(tv, license@, i as int) == url_lookup_from(
                tv,
                license@,
                i as int + 1,
            ));
        }
        i += 1;
    }
    None
}

} // verus!
