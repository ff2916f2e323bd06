use depscan::cache::CacheStore;
use depscan::engine::{Engine, EngineStep};
use depscan::hashing::{bytes_to_hex, generate_package_hash};
use depscan::pkg::Package;

fn identity(name: &str) -> Package {
    Package::new(
        name.to_string(),
        "1.0.0".to_string(),
        format!("https://registry.npmjs.org/{}/-/{}-1.0.0.tgz", name, name),
        None,
    )
}

fn resolved(name: &str, license: &str, deps: Vec<&str>) -> Package {
    let mut record = identity(name);
    record.registry = "npm".to_string();
    record.license = license.to_string();
    record.dependencies = deps.into_iter().map(identity).collect();
    record.processed = true;
    record
}

/// Drive the engine to completion with a table-driven stand-in resolver.
/// Each entry maps a package name to its record; a missing entry fails.
fn run(engine: &mut Engine, table: &[(&str, Package)]) {
    loop {
        match engine.next_action() {
            EngineStep::Resolve(identity, hash) => {
                match table.iter().find(|(n, _)| *n == identity.name) {
                    Some((_, record)) => {
                        engine.complete_resolved(hash, record.duplicate());
                    }
                    None => {
                        engine.complete_failed(&identity, hash, "no such package");
                    }
                }
            }
            EngineStep::Wait => panic!("single-threaded driver must never wait"),
            EngineStep::Finished => break,
        }
    }
}

#[test]
fn hashing_is_deterministic() {
    let a = identity("lodash");
    let h1 = generate_package_hash(&a);
    let h2 = generate_package_hash(&a);
    assert_eq!(h1, h2);
    assert_eq!(h1.len(), 64);
    assert!(h1.chars().all(|c| c.is_ascii_hexdigit()));
    let b = identity("underscore");
    assert_ne!(generate_package_hash(&b), h1);
}

#[test]
fn hashing_dedupes_same_archive_url() {
    let mut a = Package::new(
        "display-name-one".to_string(),
        "1.0.0".to_string(),
        "https://host/x?__archiveUrl=https://host/real.tgz".to_string(),
        None,
    );
    let mut b = Package::new(
        "display-name-two".to_string(),
        "2.0.0".to_string(),
        "https://other/y?__archiveUrl=https://host/real.tgz".to_string(),
        None,
    );
    a.registry = String::new();
    b.registry = String::new();
    assert_eq!(generate_package_hash(&a), generate_package_hash(&b));
}

#[test]
fn hashing_github_marker_changes_class() {
    let plain = identity("pkg");
    let mut gh = identity("pkg");
    gh.name = "github:owner/pkg".to_string();
    assert_ne!(generate_package_hash(&plain), generate_package_hash(&gh));
}

#[test]
fn hex_encoding_exact() {
    assert_eq!(bytes_to_hex(&vec![0x00u8, 0xff, 0x1a, 0x2b]), "00ff1a2b");
    assert_eq!(bytes_to_hex(&vec![]), "");
}

#[test]
fn cache_round_trip_returns_equal_record() {
    let mut cache = CacheStore::new();
    let record = resolved("lodash", "MIT", vec!["underscore"]);
    cache.put("key-one".to_string(), record.duplicate());
    let back = cache.get("key-one").expect("stored record must be found");
    assert_eq!(back.name, record.name);
    assert_eq!(back.version, record.version);
    assert_eq!(back.resolution, record.resolution);
    assert_eq!(back.checksum, record.checksum);
    assert_eq!(back.registry, record.registry);
    assert_eq!(back.display_name, record.display_name);
    assert_eq!(back.license, record.license);
    assert_eq!(back.license_expiration, record.license_expiration);
    assert_eq!(back.url, record.url);
    assert_eq!(back.license_url, record.license_url);
    assert_eq!(back.debug_info, record.debug_info);
    assert_eq!(back.processed, record.processed);
    assert_eq!(back.retry_for_unknown, record.retry_for_unknown);
    assert_eq!(back.raw_api_response, record.raw_api_response);
    assert_eq!(back.dependencies.len(), record.dependencies.len());
    assert_eq!(back.dependencies[0].name, record.dependencies[0].name);
    assert!(cache.get("missing-key").is_none());
}

#[test]
fn cache_put_overwrites_wholesale() {
    let mut cache = CacheStore::new();
    cache.put("k".to_string(), resolved("a", "UNKNOWN", vec![]));
    cache.put("k".to_string(), resolved("a", "MIT", vec![]));
    assert_eq!(cache.get("k").unwrap().license, "MIT");
}

#[test]
fn scenario_diamond_graph() {
    // A depends on B and C, B depends on C, C has no dependencies.
    let table = vec![
        ("A", resolved("A", "MIT", vec!["B", "C"])),
        ("B", resolved("B", "ISC", vec!["C"])),
        ("C", resolved("C", "MIT", vec![])),
    ];
    let mut engine = Engine::new(vec![identity("A")], CacheStore::new(), false, true);
    run(&mut engine, &table);

    assert_eq!(engine.processed_len(), 3);
    assert_eq!(engine.results().len(), 3);
    for p in ["A", "B", "C"] {
        let h = generate_package_hash(&identity(p));
        assert!(engine.processed_contains(&h));
    }
    let a_children = engine.edge_children_of("A@1.0.0").unwrap();
    assert_eq!(a_children, vec!["B@1.0.0".to_string(), "C@1.0.0".to_string()]);
    let b_children = engine.edge_children_of("B@1.0.0").unwrap();
    assert_eq!(b_children, vec!["C@1.0.0".to_string()]);
    assert!(engine.edge_children_of("C@1.0.0").is_none());
    assert_eq!(engine.graph_roots(), vec!["A@1.0.0".to_string()]);
}

#[test]
fn scenario_cycle_terminates() {
    // A and B depend on each other: the processed set breaks the cycle.
    let table = vec![
        ("A", resolved("A", "MIT", vec!["B"])),
        ("B", resolved("B", "MIT", vec!["A"])),
    ];
    let mut engine = Engine::new(vec![identity("A")], CacheStore::new(), false, false);
    run(&mut engine, &table);
    assert_eq!(engine.results().len(), 2);
    assert_eq!(engine.processed_len(), 2);
}

#[test]
fn scenario_shared_dependency_processed_once() {
    // Both roots share a dependency; it must be processed exactly once.
    let table = vec![
        ("A", resolved("A", "MIT", vec!["C"])),
        ("B", resolved("B", "MIT", vec!["C"])),
        ("C", resolved("C", "ISC", vec![])),
    ];
    let mut engine = Engine::new(
        vec![identity("A"), identity("B")],
        CacheStore::new(),
        false,
        false,
    );
    run(&mut engine, &table);
    assert_eq!(engine.results().len(), 3);
    let c_count = engine.results().iter().filter(|p| p.name == "C").count();
    assert_eq!(c_count, 1);
}

#[test]
fn scenario_resolver_error() {
    // The resolver fails for X: one UNKNOWN result with diagnostics, the
    // hash is processed, and no retry happens within the run.
    let table: Vec<(&str, Package)> = vec![];
    let mut engine = Engine::new(vec![identity("X")], CacheStore::new(), false, false);
    run(&mut engine, &table);
    assert_eq!(engine.results().len(), 1);
    let r = &engine.results()[0];
    assert_eq!(r.name, "X");
    assert_eq!(r.license, "UNKNOWN");
    let debug = r.debug_info.as_ref().expect("diagnostics must be recorded");
    assert!(!debug.is_empty());
    assert_eq!(debug, "Error processing package: no such package");
    assert_eq!(r.url, "https://www.FAILnpmjs.com/package/X");
    let h = generate_package_hash(&identity("X"));
    assert!(engine.processed_contains(&h));
}

#[test]
fn retry_reresolves_unknown_cache_entries() {
    let x = identity("X");
    let h = generate_package_hash(&x);
    let mut cache = CacheStore::new();
    cache.put(h.clone(), resolved("X", "UNKNOWN", vec![]));

    // Retry mode on: the cached UNKNOWN entry is bypassed, the resolver runs
    // again, and the cache entry is overwritten.
    let table = vec![("X", resolved("X", "MIT", vec![]))];
    let mut engine = Engine::new(vec![x.duplicate()], cache, true, false);
    let mut resolver_calls = 0;
    loop {
        match engine.next_action() {
            EngineStep::Resolve(identity, hash) => {
                resolver_calls += 1;
                assert_eq!(identity.name, "X");
                assert!(identity.retry_for_unknown);
                let (_, record) = &table[0];
                engine.complete_resolved(hash, record.duplicate());
            }
            EngineStep::Wait => panic!("single-threaded driver must never wait"),
            EngineStep::Finished => break,
        }
    }
    assert_eq!(resolver_calls, 1);
    assert_eq!(engine.results().len(), 1);
    assert_eq!(engine.results()[0].license, "MIT");
    assert_eq!(engine.cached_record(&h).unwrap().license, "MIT");
}

#[test]
fn no_retry_reuses_unknown_cache_entries() {
    let x = identity("X");
    let h = generate_package_hash(&x);
    let mut cache = CacheStore::new();
    cache.put(h.clone(), resolved("X", "UNKNOWN", vec![]));

    // Retry mode off: the cached entry is reused and the resolver never runs.
    let mut engine = Engine::new(vec![x.duplicate()], cache, false, false);
    loop {
        match engine.next_action() {
            EngineStep::Resolve(_, _) => panic!("resolver must not be consulted on a cache hit"),
            EngineStep::Wait => panic!("single-threaded driver must never wait"),
            EngineStep::Finished => break,
        }
    }
    assert_eq!(engine.results().len(), 1);
    assert_eq!(engine.results()[0].license, "UNKNOWN");
    assert_eq!(engine.cached_record(&h).unwrap().license, "UNKNOWN");
}

#[test]
fn known_cache_entries_not_reresolved_under_retry() {
    // Retry mode must bypass only UNKNOWN entries: a cached MIT record is
    // still committed from the cache.
    let x = identity("X");
    let h = generate_package_hash(&x);
    let mut cache = CacheStore::new();
    cache.put(h.clone(), resolved("X", "MIT", vec![]));
    let mut engine = Engine::new(vec![x.duplicate()], cache, true, false);
    loop {
        match engine.next_action() {
            EngineStep::Resolve(_, _) => panic!("known licenses must come from the cache"),
            EngineStep::Wait => panic!("single-threaded driver must never wait"),
            EngineStep::Finished => break,
        }
    }
    assert_eq!(engine.results().len(), 1);
    assert_eq!(engine.results()[0].license, "MIT");
}

#[test]
fn cache_hits_enqueue_cached_dependencies() {
    // A cache hit re-enqueues the record's dependencies without resolving it.
    let a = identity("A");
    let h = generate_package_hash(&a);
    let mut cache = CacheStore::new();
    cache.put(h.clone(), resolved("A", "MIT", vec!["B"]));
    let table = vec![("B", resolved("B", "ISC", vec![]))];
    let mut engine = Engine::new(vec![a.duplicate()], cache, false, false);
    let mut resolved_names: Vec<String> = Vec::new();
    loop {
        match engine.next_action() {
            EngineStep::Resolve(identity, hash) => {
                resolved_names.push(identity.name.clone());
                let (_, record) = &table[0];
                engine.complete_resolved(hash, record.duplicate());
            }
            EngineStep::Wait => panic!("single-threaded driver must never wait"),
            EngineStep::Finished => break,
        }
    }
    assert_eq!(resolved_names, vec!["B".to_string()]);
    assert_eq!(engine.results().len(), 2);
}

#[test]
fn duplicate_initial_identities_processed_once() {
    let table = vec![("A", resolved("A", "MIT", vec![]))];
    let mut engine = Engine::new(
        vec![identity("A"), identity("A")],
        CacheStore::new(),
        false,
        false,
    );
    run(&mut engine, &table);
    assert_eq!(engine.results().len(), 1);
    assert_eq!(engine.processed_len(), 1);
}

#[test]
fn local_packages_are_ignored() {
    let mut local = identity("workspace-pkg");
    local.version = "0.0.0-use.local".to_string();
    let mut engine = Engine::new(vec![local], CacheStore::new(), false, false);
    match engine.next_action() {
        EngineStep::Finished => {}
        _ => panic!("a local package must be discarded silently"),
    }
    assert_eq!(engine.results().len(), 0);
    assert_eq!(engine.processed_len(), 0);
}
