use vstd::prelude::*;

use crate::hashing::{fallback_id_of, generate_fallback_checksum, hex_of, sha256_of};
use crate::pkg::{fresh_pkg, lemma_pvs, pvs, Package, PkgV};
use crate::strutil::{
    contains_str, find_char_str, has_char, has_prefix, index_of_char, lemma_index_of_char_occurs,
    occurs, split_seq, split_str, starts_with_str, strip_suffix_char_all,
    strip_suffix_char_all_str, substr_copy, trim_of, trim_str,
};
use crate::urls::{determine_package_url, determine_package_url_of};

verus! {

// Reading package identities out of a yarn lockfile. The lockfile grammar
// itself is parsed by an outside crate; everything done with the parsed
// entries is verified here.

/// One parsed lockfile entry: its name, its version, and its descriptor
/// key-value pairs, in order.
pub struct YarnEntry {
    pub name: String,
    pub version: String,
    pub descriptors: Vec<(String, String)>,
}

impl View for YarnEntry {
    type V = (Seq<char>, Seq<char>, Seq<(Seq<char>, Seq<char>)>);

    open spec fn view(&self) -> (Seq<char>, Seq<char>, Seq<(Seq<char>, Seq<char>)>) {
        (
            self.name@,
            self.version@,
            self.descriptors@.map_values(|d: (String, String)| (d.0@, d.1@)),
        )
    }
}

/// Whether `yarn_lock_parser::parse_str` accepts the lockfile text: a
/// function of the text alone.
pub uninterp spec fn yarn_parses(content: Seq<char>) -> bool;

/// The entries `yarn_lock_parser::parse_str` reads out of the lockfile
/// text, each as name, version and descriptor pairs: a function of the text
/// alone.
pub uninterp spec fn yarn_entries_of(content: Seq<char>) -> Seq<
    (Seq<char>, Seq<char>, Seq<(Seq<char>, Seq<char>)>),
>;

/// Relies on yarn_lock_parser::parse_str: whether a lockfile parses, and
/// the entries it parses into, depend on the lockfile text alone.
#[verifier::external_body]
fn parse_yarn_entries(content: &str) -> (r: Option<Vec<YarnEntry>>)
    ensures
        r is Some <==> yarn_parses(content@),
        match r {
            Some(v) => v@.map_values(|e: YarnEntry| e@) == yarn_entries_of(content@),
            None => !yarn_parses(content@),
        },
{
    let lockfile = match yarn_lock_parser::parse_str(content) {
        Ok(l) => l,
        Err(_) => {
            return None;
        },
    };
    Some(lockfile.entries.into_iter().map(|e| YarnEntry {
        name: e.name.to_string(),
        version: e.version.to_string(),
        descriptors: e.descriptors.into_iter().map(|(k, v)| (k.to_string(), v.to_string())).collect(),
    }).collect())
}

/// The name part of an identifier without a grouped or scoped form.
pub open spec fn base_extract(s: Seq<char>) -> Seq<char> {
    if has_prefix(s, "@"@) {
        let parts = split_seq(s, '@');
        if parts.len() >= 3 {
            let scope = parts[1];
            let name_parts = split_seq(parts[2], '/');
            let nv = split_seq(name_parts[0], '^');
            strip_suffix_char_all("@"@ + scope + "/"@ + nv[0], '/')
        } else {
            s
        }
    } else if has_char(s, '@') {
        s.subrange(0, index_of_char(s, '@'))
    } else {
        s
    }
}

/// What `extract_package_name` returns: for grouped identifiers, the name
/// of the first group member, trimmed; otherwise the name before the
/// version specifier, with scoped names kept whole.
pub open spec fn extract_package_name_of(s: Seq<char>) -> Seq<char> {
    if has_char(s, ',') {
        base_extract(trim_of(s.subrange(0, index_of_char(s, ','))))
    } else {
        base_extract(s)
    }
}

fn base_extract_exec(s: &str) -> (r: String)
    ensures
        r@ == base_extract(s@),
{
    if starts_with_str(s, "@") {
        let parts = split_str(s, '@');
        if parts.len() >= 3 {
            let ghost ps = split_seq(s@, '@');
            proof {
                assert(parts@.map_values(|t: String| t@)[1] == ps[1]);
                assert(parts@.map_values(|t: String| t@)[2] == ps[2]);
            }
            let name_parts = split_str(parts[2].as_str(), '/');
            let ghost nps = split_seq(ps[2], '/');
            proof {
                assert(name_parts@.map_values(|t: String| t@)[0] == nps[0]);
            }
            let nv = split_str(name_parts[0].as_str(), '^');
            let ghost nvs = split_seq(nps[0], '^');
            proof {
                assert(nv@.map_values(|t: String| t@)[0] == nvs[0]);
            }
            let mut out = "@".to_owned();
            out.append(parts[1].as_str());
            out.append("/");
            out.append(nv[0].as_str());
            strip_suffix_char_all_str(out.as_str(), '/')
        } else {
            s.to_owned()
        }
    } else if let Some(i) = find_char_str(s, '@') {
        proof {
            lemma_index_of_char_occurs(s@, '@');
        }
        substr_copy(s, 0, i)
    } else {
        s.to_owned()
    }
}

/// Extract the base package name from a lockfile identifier.
pub fn extract_package_name(identifier: &str) -> (r: String)
    ensures
        r@ == extract_package_name_of(identifier@),
{
    if let Some(i) = find_char_str(identifier, ',') {
        proof {
            lemma_index_of_char_occurs(identifier@, ',');
        }
        let first = substr_copy(identifier, 0, i);
        let trimmed = trim_str(first.as_str());
        base_extract_exec(trimmed)
    } else {
        base_extract_exec(identifier)
    }
}

/// The value of the first descriptor with the given key, at or after `i`.
pub open spec fn descriptor_value_from(
    ds: Seq<(Seq<char>, Seq<char>)>,
    key: Seq<char>,
    i: int,
) -> Option<Seq<char>>
    decreases ds.len() - i,
        when 0 <= i
{
    if i >= ds.len() {
        None
    } else if ds[i].0 == key {
        Some(ds[i].1)
    } else {
        descriptor_value_from(ds, key, i + 1)
    }
}

/// The value of the first descriptor with the given key.
pub open spec fn descriptor_value(ds: Seq<(Seq<char>, Seq<char>)>, key: Seq<char>) -> Option<
    Seq<char>,
> {
    descriptor_value_from(ds, key, 0)
}

fn descriptor_lookup(ds: &Vec<(String, String)>, key: &str) -> (r: Option<String>)
    ensures
        match r {
            Some(v) => descriptor_value(
                ds@.map_values(|d: (String, String)| (d.0@, d.1@)),
                key@,
            ) == Some(v@),
            None => descriptor_value(
                ds@.map_values(|d: (String, String)| (d.0@, d.1@)),
                key@,
            ) is None,
        },
{
    let ghost dsv = ds@.map_values(|d: (String, String)| (d.0@, d.1@));
    let n = ds.len();
    let mut i: usize = 0;
    while i < n
        invariant
            i <= n,
            n == dsv.len(),
            dsv == ds@.map_values(|d: (String, String)| (d.0@, d.1@)),
            descriptor_value(dsv, key@) == descriptor_value_from(dsv, key@, i as int),
        decreases n - i,
    {
        if crate::strutil::str_eq(ds[i].0.as_str(), key) {
            proof {
                assert(dsv[i as int].0 == key@);
                assert(descriptor_value_from(dsv, key@, i as int) == Some(dsv[i as int].1));
            }
            return Some(ds[i].1.clone());
        }
        proof {
            assert(dsv[i as int].0 != key@);
            assert(descriptor_value_from(dsv, key@, i as int) == descriptor_value_from(
                dsv,
                key@,
                i as int + 1,
            ));
        }
        i += 1;
    }
    None
}

/// The package a lockfile entry turns into: extracted name, version,
/// resolution and checksum from the descriptors, the reporting URL, and a
/// fallback checksum when the entry carries none.
pub open spec fn package_of_entry(e: (Seq<char>, Seq<char>, Seq<(Seq<char>, Seq<char>)>)) -> PkgV {
    let name = extract_package_name_of(e.0);
    let resolution = match descriptor_value(e.2, "resolution"@) {
        Some(v) => v,
        None => e.0,
    };
    let checksum = descriptor_value(e.2, "checksum"@);
    let base = PkgV {
        url: determine_package_url_of(name, resolution),
        ..fresh_pkg(name, e.1, resolution, checksum)
    };
    match checksum {
        Some(_) => base,
        None => PkgV {
            checksum: Some("fallback:"@ + hex_of(sha256_of(fallback_id_of(base)))),
            ..base
        },
    }
}

/// The packages a sequence of lockfile entries turns into, local
/// development entries dropped.
pub open spec fn yarn_packages_of(
    entries: Seq<(Seq<char>, Seq<char>, Seq<(Seq<char>, Seq<char>)>)>,
) -> Seq<PkgV>
    decreases entries.len(),
{
    if entries.len() == 0 {
        Seq::<PkgV>::empty()
    } else {
        let rest = yarn_packages_of(entries.subrange(1, entries.len() as int));
        if occurs(entries[0].1, "0.0.0-use.local"@) {
            rest
        } else {
            seq![package_of_entry(entries[0])] + rest
        }
    }
}

proof fn lemma_yarn_packages_push(
    entries: Seq<(Seq<char>, Seq<char>, Seq<(Seq<char>, Seq<char>)>)>,
    x: (Seq<char>, Seq<char>, Seq<(Seq<char>, Seq<char>)>),
)
    ensures
        yarn_packages_of(entries.push(x)) == yarn_packages_of(entries) + if occurs(
            x.1,
            "0.0.0-use.local"@,
        ) {
            Seq::<PkgV>::empty()
        } else {
            seq![package_of_entry(x)]
        },
    decreases entries.len(),
{
    let tail_x = if occurs(x.1, "0.0.0-use.local"@) {
        Seq::<PkgV>::empty()
    } else {
        seq![package_of_entry(x)]
    };
    if entries.len() == 0 {
        assert(entries.push(x) =~= seq![x]);
        assert(seq![x].subrange(1, 1) =~= entries);
        assert(yarn_packages_of(entries) == Seq::<PkgV>::empty());
        assert(Seq::<PkgV>::empty() + tail_x =~= tail_x);
        assert(tail_x + Seq::<PkgV>::empty() =~= tail_x);
    } else {
        lemma_yarn_packages_push(entries.subrange(1, entries.len() as int), x);
        assert(entries.push(x).subrange(1, entries.push(x).len() as int) =~= entries.subrange(
            1,
            entries.len() as int,
        ).push(x));
        assert(entries.push(x)[0] == entries[0]);
        if occurs(entries[0].1, "0.0.0-use.local"@) {
        } else {
            assert(seq![package_of_entry(entries[0])] + (yarn_packages_of(
                entries.subrange(1, entries.len() as int),
            ) + tail_x) =~= (seq![package_of_entry(entries[0])] + yarn_packages_of(
                entries.subrange(1, entries.len() as int),
            )) + tail_x);
        }
    }
}

/// Turn parsed lockfile entries into packages.
pub fn packages_from_entries(entries: &Vec<YarnEntry>) -> (r: Vec<Package>)
    ensures
        pvs(r@) == yarn_packages_of(entries@.map_values(|e: YarnEntry| e@)),
{
    let ghost evs = entries@.map_values(|e: YarnEntry| e@);
    let mut out: Vec<Package> = Vec::new();
    let n = entries.len();
    let mut i: usize = 0;
    proof {
        assert(evs.subrange(0, 0) =~= Seq::<
            (Seq<char>, Seq<char>, Seq<(Seq<char>, Seq<char>)>),
        >::empty());
        lemma_pvs(out@);
        assert(pvs(out@) =~= yarn_packages_of(evs.subrange(0, 0)));
    }
    while i < n
        invariant
            i <= n,
            n == entries@.len(),
            evs == entries@.map_values(|e: YarnEntry| e@),
            evs.len() == n,
            pvs(out@) == yarn_packages_of(evs.subrange(0, i as int)),
        decreases n - i,
    {
        proof {
            assert(evs[i as int] == entries@[i as int]@);
            assert(evs.subrange(0, i as int + 1) =~= evs.subrange(0, i as int).push(
                evs[i as int],
            ));
            lemma_yarn_packages_push(evs.subrange(0, i as int), evs[i as int]);
        }
        let entry = &entries[i];
        if contains_str(entry.version.as_str(), "0.0.0-use.local") {
            i += 1;
            continue;
        }
        let package_name = extract_package_name(entry.name.as_str());
        let resolution = match descriptor_lookup(&entry.descriptors, "resolution") {
            Some(v) => v,
            None => entry.name.clone(),
        };
        let checksum = descriptor_lookup(&entry.descriptors, "checksum");
        let had_checksum = checksum.is_some();
        let url = determine_package_url(package_name.as_str(), resolution.as_str());
        let mut package = Package::new(package_name, entry.version.clone(), resolution, checksum);
        package.url = url;
        proof {
            lemma_pvs(package.dependencies@);
            assert(package.pv() =~~= (PkgV {
                url: determine_package_url_of(
                    extract_package_name_of(entries@[i as int].name@),
                    package.resolution@,
                ),
                ..fresh_pkg(
                    extract_package_name_of(entries@[i as int].name@),
                    entries@[i as int].version@,
                    package.resolution@,
                    crate::pkg::view_opt(package.checksum),
                )
            }));
        }
        if !had_checksum {
            let fallback = generate_fallback_checksum(&package);
            let ghost before = package.pv();
            package.checksum = Some(fallback);
            proof {
                lemma_pvs(package.dependencies@);
                assert(package.pv() =~~= (PkgV {
                    checksum: Some(
                        "fallback:"@ + hex_of(sha256_of(fallback_id_of(before))),
                    ),
                    ..before
                }));
            }
        }
        proof {
            assert(package.pv() == package_of_entry(evs[i as int]));
        }
        let ghost out0 = out@;
        out.push(package);
        proof {
            lemma_pvs(out0);
            lemma_pvs(out@);
            assert(pvs(out@) =~= pvs(out0).push(package_of_entry(evs[i as int])));
            assert(pvs(out0).push(package_of_entry(evs[i as int])) =~= pvs(out0) + seq![
                package_of_entry(evs[i as int]),
            ]);
        }
        i += 1;
    }
    proof {
        assert(evs.subrange(0, n as int) =~= evs);
    }
    out
}

/// Parse a yarn lockfile into packages; an unparsable lockfile yields none.
pub fn parse_yarn_lock(content: &str) -> (r: Vec<Package>)
    ensures
        yarn_parses(content@) ==> pvs(r@) == yarn_packages_of(yarn_entries_of(content@)),
        !yarn_parses(content@) ==> r@.len() == 0,
{
    match parse_yarn_entries(content) {
        Some(entries) => packages_from_entries(&entries),
        None => Vec::new(),
    }
}

} // verus!
