use vstd::prelude::*;

use crate::cache::CacheStore;
use crate::edges::EdgeRecorder;
use crate::hashing::{generate_package_hash, spec_package_hash};
use crate::pkg::{error_pkg, lemma_pvs, pvs, Package, PkgV};
use crate::strutil::{contains_str, has_prefix, occurs, str_eq, strip_prefix_all,
    strip_prefix_all_str};
use crate::urls::{extract_github_url, extract_github_url_of};

verus! {

// The resolution engine: the shared work queue, the processed set, the
// in-flight set of the termination protocol, the results collector, the
// edge recorder and the result cache, with the decision logic that drives
// one worker step. Resolution itself is the caller's: the engine hands out
// identities to resolve and takes the outcomes back.

pub open spec fn string_views(v: Seq<String>) -> Seq<Seq<char>> {
    v.map_values(|s: String| s@)
}

/// An identity that is discarded silently: its version carries the local
/// development marker.
pub open spec fn ignored_pv(p: PkgV) -> bool {
    occurs(p.version, "0.0.0-use.local"@)
}

/// Whether an identity is discarded without processing.
pub fn should_ignore_package(package: &Package) -> (r: bool)
    ensures
        r == ignored_pv(package.pv()),
{
    contains_str(package.version.as_str(), "0.0.0-use.local")
}

/// The label a package is recorded under in the edge map.
pub open spec fn pkg_label_of(p: PkgV) -> Seq<char> {
    p.name + "@"@ + p.version
}

/// The edge labels of a record's dependencies, in order.
pub open spec fn child_labels(deps: Seq<PkgV>) -> Seq<Seq<char>> {
    deps.map_values(|d: PkgV| pkg_label_of(d))
}

/// The dependencies kept for the queue: those whose canonical hash is not in
/// `done`, in order.
pub open spec fn enqueue_filter(deps: Seq<PkgV>, done: Seq<Seq<char>>) -> Seq<PkgV>
    decreases deps.len(),
{
    if deps.len() == 0 {
        Seq::<PkgV>::empty()
    } else {
        let tail = enqueue_filter(deps.subrange(1, deps.len() as int), done);
        if done.contains(spec_package_hash(deps[0])) {
            tail
        } else {
            seq![deps[0]] + tail
        }
    }
}

proof fn lemma_enqueue_filter_push(deps: Seq<PkgV>, done: Seq<Seq<char>>, x: PkgV)
    ensures
        enqueue_filter(deps.push(x), done) == enqueue_filter(deps, done) + if done.contains(
            spec_package_hash(x),
        ) {
            Seq::<PkgV>::empty()
        } else {
            seq![x]
        },
    decreases deps.len(),
{
    let tail_x = if done.contains(spec_package_hash(x)) {
        Seq::<PkgV>::empty()
    } else {
        seq![x]
    };
    if deps.len() == 0 {
        assert(deps.push(x) =~= seq![x]);
        assert(seq![x].subrange(1, 1) =~= Seq::<PkgV>::empty());
        assert(seq![x] + Seq::<PkgV>::empty() =~= seq![x]);
        assert(enqueue_filter(Seq::<PkgV>::empty(), done) == Seq::<PkgV>::empty());
        assert(Seq::<PkgV>::empty() + tail_x =~= tail_x);
        assert(enqueue_filter(deps, done) + tail_x =~= tail_x);
    } else {
        lemma_enqueue_filter_push(deps.subrange(1, deps.len() as int), done, x);
        assert(deps.push(x).subrange(1, deps.push(x).len() as int) =~= deps.subrange(
            1,
            deps.len() as int,
        ).push(x));
        assert(deps.push(x)[0] == deps[0]);
        if done.contains(spec_package_hash(deps[0])) {
        } else {
            assert(seq![deps[0]] + (enqueue_filter(deps.subrange(1, deps.len() as int), done)
                + tail_x) =~= (seq![deps[0]] + enqueue_filter(
                deps.subrange(1, deps.len() as int),
                done,
            )) + tail_x);
        }
    }
}

/// The registry an error placeholder is classified under.
pub open spec fn error_registry_of(p: PkgV) -> Seq<char> {
    if has_prefix(p.name, "github:"@) || occurs(p.resolution, "github:"@) {
        "github"@
    } else {
        "npm"@
    }
}

/// The registry URL an error placeholder points at.
pub open spec fn error_url_of(p: PkgV) -> Seq<char> {
    if has_prefix(p.name, "github:"@) || occurs(p.resolution, "github:"@) {
        match extract_github_url_of(p.resolution) {
            Some(u) => u,
            None => "https://github.com/"@ + strip_prefix_all(p.name, "github:"@),
        }
    } else {
        "https://www.FAILnpmjs.com/package/"@ + p.name
    }
}

/// The record synthesized for an identity whose resolution failed.
pub open spec fn error_placeholder_of(p: PkgV, msg: Seq<char>) -> PkgV {
    error_pkg(
        p.name,
        p.version,
        error_registry_of(p),
        error_url_of(p),
        "Error processing package: "@ + msg,
    )
}

/// Build the placeholder record for an identity whose resolution failed.
pub fn error_placeholder(identity: &Package, error_msg: &str) -> (r: Package)
    ensures
        r.pv() == error_placeholder_of(identity.pv(), error_msg@),
{
    let is_github = starts_with_github(identity);
    let registry = if is_github {
        "github"
    } else {
        "npm"
    };
    let url = if is_github {
        match extract_github_url(identity.resolution.as_str()) {
            Some(u) => u,
            None => {
                proof {
                    reveal_strlit("github:");
                }
                let stripped = strip_prefix_all_str(identity.name.as_str(), "github:");
                let mut u = "https://github.com/".to_owned();
                u.append(stripped.as_str());
                u
            },
        }
    } else {
        let mut u = "https://www.FAILnpmjs.com/package/".to_owned();
        u.append(identity.name.as_str());
        u
    };
    let mut msg = "Error processing package: ".to_owned();
    msg.append(error_msg);
    Package::with_error(
        identity.name.clone(),
        identity.version.clone(),
        registry,
        url,
        msg.as_str(),
    )
}

fn starts_with_github(identity: &Package) -> (r: bool)
    ensures
        r == (has_prefix(identity.pv().name, "github:"@) || occurs(
            identity.pv().resolution,
            "github:"@,
        )),
{
    crate::strutil::starts_with_str(identity.name.as_str(), "github:") || contains_str(
        identity.resolution.as_str(),
        "github:",
    )
}

/// The edge map after committing a record: when tracking is on and the
/// record has dependencies, its label maps to its previous children extended
/// with its dependencies' labels.
pub open spec fn edges_after_commit(
    m: Map<Seq<char>, Seq<Seq<char>>>,
    track: bool,
    rec: PkgV,
) -> Map<Seq<char>, Seq<Seq<char>>> {
    if track && rec.dependencies.len() > 0 {
        let prev = if m.contains_key(pkg_label_of(rec)) {
            m[pkg_label_of(rec)]
        } else {
            Seq::<Seq<char>>::empty()
        };
        m.insert(pkg_label_of(rec), prev + child_labels(rec.dependencies))
    } else {
        m
    }
}

fn pkg_label(name: &str, version: &str) -> (r: String)
    ensures
        r@ == name@ + "@"@ + version@,
{
    let mut s = name.to_owned();
    s.append("@");
    s.append(version);
    s
}

fn contains_string(v: &Vec<String>, x: &str) -> (r: bool)
    ensures
        r == string_views(v@).contains(x@),
{
    let n = v.len();
    let mut i: usize = 0;
    while i < n
        invariant
            i <= n,
            n == v@.len(),
            forall|j: int| 0 <= j < i ==> v@[j]@ != x@,
        decreases n - i,
    {
        if str_eq(v[i].as_str(), x) {
            proof {
                assert(string_views(v@)[i as int] == x@);
            }
            return true;
        }
        i += 1;
    }
    proof {
        if string_views(v@).contains(x@) {
            let w = choose|w: int|
                0 <= w < string_views(v@).len() && string_views(v@)[w] == x@;
            assert(v@[w]@ == x@);
            assert(false);
        }
    }
    false
}

pub open spec fn distinct_views(v: Seq<Seq<char>>) -> bool {
    forall|i: int, j: int| 0 <= i < j < v.len() ==> v[i] != v[j]
}

fn remove_string(v: &mut Vec<String>, x: &str)
    requires
        string_views(old(v)@).contains(x@),
        distinct_views(string_views(old(v)@)),
    ensures
        final(v)@.len() == old(v)@.len() - 1,
        forall|k: Seq<char>| #[trigger] string_views(final(v)@).contains(k) <==> (string_views(
            old(v)@,
        ).contains(k) && k != x@),
        distinct_views(string_views(final(v)@)),
{
    let n = v.len();
    let mut i: usize = 0;
    while i < n
        invariant
            i <= n,
            n == v@.len(),
            v@ == old(v)@,
            string_views(old(v)@).contains(x@),
            distinct_views(string_views(old(v)@)),
            forall|j: int| 0 <= j < i ==> v@[j]@ != x@,
        decreases n - i,
    {
        if str_eq(v[i].as_str(), x) {
            let _removed = v.remove(i);
            proof {
                let ov = string_views(old(v)@);
                let nv = string_views(v@);
                assert(v@ == old(v)@.remove(i as int));
                assert forall|w: int| 0 <= w < nv.len() implies nv[w] == if w < i {
                    ov[w]
                } else {
                    ov[w + 1]
                } by {
                    if w < i {
                        assert(v@[w] == old(v)@[w]);
                    } else {
                        assert(v@[w] == old(v)@[w + 1]);
                    }
                }
                assert forall|k: Seq<char>| #[trigger] nv.contains(k) implies (ov.contains(k) && k
                    != x@) by {
                    let w = choose|w: int| 0 <= w < nv.len() && nv[w] == k;
                    if w < i {
                        assert(ov[w] == k);
                    } else {
                        assert(ov[w + 1] == k);
                        assert(w + 1 != i);
                        assert(ov[i as int] == x@);
                    }
                    assert(ov.contains(k));
                    if k == x@ {
                        let u = if w < i { w } else { w + 1 };
                        assert(ov[u] == x@ && ov[i as int] == x@ && u != i);
                        assert(false);
                    }
                }
                assert forall|k: Seq<char>| string_views(old(v)@).contains(k) && k != x@
                    implies #[trigger] string_views(v@).contains(k) by {
                    let w = choose|w: int| 0 <= w < ov.len() && ov[w] == k;
                    assert(w != i);
                    if w < i {
                        assert(nv[w] == k);
                    } else {
                        assert(nv[w - 1] == k);
                    }
                }
                assert forall|a: int, b: int| 0 <= a < b < nv.len() implies nv[a] != nv[b] by {
                    let ua = if a < i { a } else { a + 1 };
                    let ub = if b < i { b } else { b + 1 };
                    assert(nv[a] == ov[ua] && nv[b] == ov[ub]);
                    assert(ua < ub);
                }
            }
            return;
        }
        i += 1;
    }
    proof {
        let w = choose|w: int|
            0 <= w < string_views(v@).len() && string_views(v@)[w] == x@;
        assert(v@[w]@ == x@);
        assert(false);
    }
}

/// The outcome of one engine step: what the popped identity turned into.
pub enum StepOutcome {
    /// The queue was empty; nothing changed.
    QueueEmpty,
    /// The popped identity was ignored, already processed, or already being
    /// resolved by another worker.
    Skipped,
    /// The popped identity was satisfied from the cache and committed.
    Committed,
    /// The popped identity must be resolved: the caller resolves it and then
    /// calls back with the outcome, under the returned canonical hash.
    NeedsResolve(Package, String),
}

/// What a driver does next: resolve an identity, wait for in-flight work
/// held by other workers, or stop.
pub enum EngineStep {
    /// Resolve this identity and report the outcome under this hash.
    Resolve(Package, String),
    /// The queue is empty but other workers still hold in-flight work that
    /// may push new identities: check back again.
    Wait,
    /// The queue is empty and nothing is in flight: the run is over.
    Finished,
}

/// The engine state shared by the worker pool.
pub struct Engine {
    queue: Vec<Package>,
    processed: Vec<String>,
    in_flight: Vec<String>,
    results: Vec<Package>,
    edges: EdgeRecorder,
    cache: CacheStore,
    retry_unknown: bool,
    track_deps: bool,
}

impl Engine {
    /// The pending identities, in queue order.
    pub closed spec fn queue_v(self) -> Seq<PkgV> {
        pvs(self.queue@)
    }

    /// The hashes committed so far, in commit order.
    pub closed spec fn processed_v(self) -> Seq<Seq<char>> {
        string_views(self.processed@)
    }

    /// The hashes handed out for resolution and not yet completed.
    pub closed spec fn in_flight_v(self) -> Seq<Seq<char>> {
        string_views(self.in_flight@)
    }

    /// The collected result records, in commit order.
    pub closed spec fn results_v(self) -> Seq<PkgV> {
        pvs(self.results@)
    }

    /// The result cache.
    pub closed spec fn cache_v(self) -> Map<Seq<char>, PkgV> {
        self.cache.contents()
    }

    /// The recorded dependency edges.
    pub closed spec fn edges_v(self) -> Map<Seq<char>, Seq<Seq<char>>> {
        self.edges.contents()
    }

    pub closed spec fn retry_mode(self) -> bool {
        self.retry_unknown
    }

    pub closed spec fn track_mode(self) -> bool {
        self.track_deps
    }

    /// A hash already committed or currently being resolved.
    pub open spec fn hash_done(self, h: Seq<char>) -> bool {
        self.processed_v().contains(h) || self.in_flight_v().contains(h)
    }

    /// Well-formedness: processed and in-flight hashes are distinct and
    /// disjoint, and results and processed grow in lockstep.
    pub closed spec fn wf(self) -> bool {
        &&& distinct_views(self.processed_v())
        &&& distinct_views(self.in_flight_v())
        &&& forall|h: Seq<char>| #[trigger]
            self.in_flight_v().contains(h) ==> !self.processed_v().contains(h)
        &&& self.results_v().len() == self.processed_v().len()
        &&& self.cache.wf()
        &&& self.edges.wf()
    }

    /// Build an engine over the initial identities, an already loaded cache,
    /// and the run's configuration.
    pub fn new(
        initial: Vec<Package>,
        cache: CacheStore,
        retry_unknown: bool,
        track_deps: bool,
    ) -> (r: Engine)
        requires
            cache.wf(),
        ensures
            r.wf(),
            r.queue_v() == pvs(initial@),
            r.processed_v() == Seq::<Seq<char>>::empty(),
            r.in_flight_v() == Seq::<Seq<char>>::empty(),
            r.results_v() == Seq::<PkgV>::empty(),
            r.cache_v() == cache.contents(),
            r.edges_v() == Map::<Seq<char>, Seq<Seq<char>>>::empty(),
            r.retry_mode() == retry_unknown,
            r.track_mode() == track_deps,
    {
        let r = Engine {
            queue: initial,
            processed: Vec::new(),
            in_flight: Vec::new(),
            results: Vec::new(),
            edges: EdgeRecorder::new(),
            cache: cache,
            retry_unknown,
            track_deps,
        };
        proof {
            assert(r.processed_v() =~= Seq::<Seq<char>>::empty());
            assert(r.in_flight_v() =~= Seq::<Seq<char>>::empty());
            assert(r.results_v() =~= Seq::<PkgV>::empty());
        }
        r
    }

    /// Record the edges of a committed record.
    fn record_edges(&mut self, record: &Package)
        requires
            old(self).edges.wf(),
        ensures
            final(self).edges.wf(),
            final(self).edges_v() == edges_after_commit(
                old(self).edges_v(),
                old(self).track_mode(),
                record.pv(),
            ),
            final(self).queue_v() == old(self).queue_v(),
            final(self).processed_v() == old(self).processed_v(),
            final(self).in_flight_v() == old(self).in_flight_v(),
            final(self).results_v() == old(self).results_v(),
            final(self).cache == old(self).cache,
            final(self).retry_mode() == old(self).retry_mode(),
            final(self).track_mode() == old(self).track_mode(),
    {
        let ghost m0 = self.edges.contents();
        let ghost rec = record.pv();
        if !self.track_deps || record.dependencies.len() == 0 {
            return;
        }
        let parent = pkg_label(record.name.as_str(), record.version.as_str());
        let ghost labels = child_labels(rec.dependencies);
        let ghost prev = if m0.contains_key(pkg_label_of(rec)) {
            m0[pkg_label_of(rec)]
        } else {
            Seq::<Seq<char>>::empty()
        };
        let n = record.dependencies.len();
        let mut i: usize = 0;
        proof {
            lemma_pvs(record.dependencies@);
        }
        while i < n
            invariant
                i <= n,
                n == record.dependencies@.len(),
                n == rec.dependencies.len(),
                n > 0,
                rec == record.pv(),
                parent@ == pkg_label_of(rec),
                labels == child_labels(rec.dependencies),
                prev == if m0.contains_key(pkg_label_of(rec)) {
                    m0[pkg_label_of(rec)]
                } else {
                    Seq::<Seq<char>>::empty()
                },
                self.edges.wf(),
                self.edges.contents() == if i == 0 {
                    m0
                } else {
                    m0.insert(pkg_label_of(rec), prev + labels.subrange(0, i as int))
                },
                self.queue@ == old(self).queue@,
                self.processed@ == old(self).processed@,
                self.in_flight@ == old(self).in_flight@,
                self.results@ == old(self).results@,
                self.cache == old(self).cache,
                self.retry_unknown == old(self).retry_unknown,
                self.track_deps == old(self).track_deps,
                m0 == old(self).edges.contents(),
            decreases n - i,
        {
            proof {
                lemma_pvs(record.dependencies@);
                assert(rec.dependencies[i as int] == record.dependencies@[i as int].pv());
            }
            let child = pkg_label(
                record.dependencies[i].name.as_str(),
                record.dependencies[i].version.as_str(),
            );
            proof {
                assert(child@ == labels[i as int]);
            }
            let ghost before = self.edges.contents();
            self.edges.record(parent.as_str(), child);
            proof {
                if i == 0 {
                    assert(self.edges.contents() == m0.insert(
                        pkg_label_of(rec),
                        prev.push(labels[0]),
                    ));
                    assert(prev.push(labels[0]) =~= prev + labels.subrange(0, 1));
                    assert(self.edges.contents() =~= m0.insert(
                        pkg_label_of(rec),
                        prev + labels.subrange(0, 1),
                    ));
                } else {
                    let u = prev + labels.subrange(0, i as int);
                    assert(before.contains_key(pkg_label_of(rec)));
                    assert(before[pkg_label_of(rec)] == u);
                    assert(self.edges.contents() == before.insert(
                        pkg_label_of(rec),
                        u.push(labels[i as int]),
                    ));
                    assert(u.push(labels[i as int]) =~= prev + labels.subrange(0, i as int + 1));
                    assert(before.insert(pkg_label_of(rec), prev + labels.subrange(0, i as int + 1))
                        =~= m0.insert(pkg_label_of(rec), prev + labels.subrange(0, i as int + 1)));
                }
            }
            i += 1;
        }
        proof {
            assert(labels.subrange(0, n as int) =~= labels);
        }
    }

    /// Enqueue the dependencies of a committed record whose hashes are not in
    /// the processed set.
    fn enqueue_new_deps(&mut self, record: &Package)
        ensures
            final(self).queue_v() == old(self).queue_v() + enqueue_filter(
                record.pv().dependencies,
                old(self).processed_v(),
            ),
            final(self).processed_v() == old(self).processed_v(),
            final(self).in_flight_v() == old(self).in_flight_v(),
            final(self).results_v() == old(self).results_v(),
            final(self).cache == old(self).cache,
            final(self).edges == old(self).edges,
            final(self).retry_mode() == old(self).retry_mode(),
            final(self).track_mode() == old(self).track_mode(),
    {
        let ghost rec = record.pv();
        let ghost done = old(self).processed_v();
        let n = record.dependencies.len();
        let mut i: usize = 0;
        proof {
            lemma_pvs(record.dependencies@);
            assert(rec.dependencies.subrange(0, 0) =~= Seq::<PkgV>::empty());
            assert(old(self).queue_v() + enqueue_filter(rec.dependencies.subrange(0, 0), done)
                =~= old(self).queue_v());
        }
        while i < n
            invariant
                i <= n,
                n == record.dependencies@.len(),
                n == rec.dependencies.len(),
                rec == record.pv(),
                done == old(self).processed_v(),
                self.queue_v() == old(self).queue_v() + enqueue_filter(
                    rec.dependencies.subrange(0, i as int),
                    done,
                ),
                self.processed@ == old(self).processed@,
                self.in_flight@ == old(self).in_flight@,
                self.results@ == old(self).results@,
                self.cache == old(self).cache,
                self.edges == old(self).edges,
                self.retry_unknown == old(self).retry_unknown,
                self.track_deps == old(self).track_deps,
            decreases n - i,
        {
            proof {
                lemma_pvs(record.dependencies@);
                assert(rec.dependencies[i as int] == record.dependencies@[i as int].pv());
                assert(rec.dependencies.subrange(0, i as int + 1) =~= rec.dependencies.subrange(
                    0,
                    i as int,
                ).push(rec.dependencies[i as int]));
                lemma_enqueue_filter_push(
                    rec.dependencies.subrange(0, i as int),
                    done,
                    rec.dependencies[i as int],
                );
            }
            let dep_hash = generate_package_hash(&record.dependencies[i]);
            if !contains_string(&self.processed, dep_hash.as_str()) {
                let ghost q0 = self.queue@;
                let d = record.dependencies[i].duplicate();
                self.queue.push(d);
                proof {
                    lemma_pvs(q0);
                    lemma_pvs(self.queue@);
                    assert(self.queue_v() =~= pvs(q0).push(
                        record.dependencies@[i as int].pv(),
                    ));
                    assert(pvs(q0).push(rec.dependencies[i as int]) =~= pvs(q0) + seq![
                        rec.dependencies[i as int],
                    ]);
                    assert(self.queue_v() =~= old(self).queue_v() + enqueue_filter(
                        rec.dependencies.subrange(0, i as int + 1),
                        done,
                    ));
                }
            } else {
                proof {
                    assert(self.queue_v() + Seq::<PkgV>::empty() =~= self.queue_v());
                    assert(self.queue_v() =~= old(self).queue_v() + enqueue_filter(
                        rec.dependencies.subrange(0, i as int + 1),
                        done,
                    ));
                }
            }
            i += 1;
        }
        proof {
            assert(rec.dependencies.subrange(0, n as int) =~= rec.dependencies);
        }
    }

    /// Commit a record for a hash: remember the hash, collect the record,
    /// record its edges, and enqueue its unprocessed dependencies.
    fn commit(&mut self, hash: String, record: Package)
        requires
            old(self).wf(),
            !old(self).processed_v().contains(hash@),
            !old(self).in_flight_v().contains(hash@),
        ensures
            final(self).wf(),
            final(self).processed_v() == old(self).processed_v().push(hash@),
            final(self).results_v() == old(self).results_v().push(record.pv()),
            final(self).queue_v() == old(self).queue_v() + enqueue_filter(
                record.pv().dependencies,
                final(self).processed_v(),
            ),
            final(self).edges_v() == edges_after_commit(
                old(self).edges_v(),
                old(self).track_mode(),
                record.pv(),
            ),
            final(self).in_flight_v() == old(self).in_flight_v(),
            final(self).cache == old(self).cache,
            final(self).retry_mode() == old(self).retry_mode(),
            final(self).track_mode() == old(self).track_mode(),
    {
        let ghost p0 = self.processed@;
        self.processed.push(hash);
        proof {
            assert(self.processed_v() =~= string_views(p0).push(self.processed@.last()@));
            assert forall|a: int, b: int|
                0 <= a < b < self.processed_v().len() implies self.processed_v()[a]
                != self.processed_v()[b] by {
                if b < self.processed_v().len() - 1 {
                } else {
                    assert(!string_views(p0).contains(self.processed_v()[b]) ==> string_views(p0)[a]
                        != self.processed_v()[b]);
                    if string_views(p0)[a] == self.processed_v()[b] {
                        assert(string_views(p0).contains(self.processed_v()[b]));
                    }
                }
            }
            assert forall|h: Seq<char>| #[trigger] self.in_flight_v().contains(h)
                implies !self.processed_v().contains(h) by {
                if self.processed_v().contains(h) {
                    let w = choose|w: int|
                        0 <= w < self.processed_v().len() && self.processed_v()[w] == h;
                    if w < self.processed_v().len() - 1 {
                        assert(string_views(p0)[w] == h);
                        assert(old(self).processed_v().contains(h));
                    }
                }
            }
        }
        self.record_edges(&record);
        self.enqueue_new_deps(&record);
        let ghost r0 = self.results@;
        let ghost recv = record.pv();
        self.results.push(record);
        proof {
            lemma_pvs(r0);
            lemma_pvs(self.results@);
            assert(self.results_v() =~= pvs(r0).push(recv));
        }
    }

    /// Complete a successful resolution: store the record in the cache, move
    /// the hash from in-flight to processed, collect the record, record its
    /// edges, and enqueue its unprocessed dependencies.
    pub fn complete_resolved(&mut self, hash: String, record: Package)
        requires
            old(self).wf(),
            old(self).in_flight_v().contains(hash@),
        ensures
            final(self).wf(),
            final(self).processed_v() == old(self).processed_v().push(hash@),
            final(self).results_v() == old(self).results_v().push(record.pv()),
            final(self).in_flight_v().len() == old(self).in_flight_v().len() - 1,
            forall|k: Seq<char>| #[trigger] final(self).in_flight_v().contains(k) <==> (old(
                self,
            ).in_flight_v().contains(k) && k != hash@),
            final(self).cache_v() == old(self).cache_v().insert(hash@, record.pv()),
            final(self).queue_v() == old(self).queue_v() + enqueue_filter(
                record.pv().dependencies,
                final(self).processed_v(),
            ),
            final(self).edges_v() == edges_after_commit(
                old(self).edges_v(),
                old(self).track_mode(),
                record.pv(),
            ),
            final(self).retry_mode() == old(self).retry_mode(),
            final(self).track_mode() == old(self).track_mode(),
    {
        remove_string(&mut self.in_flight, hash.as_str());
        self.cache.put(hash.clone(), record.duplicate());
        self.commit(hash, record);
    }

    /// Complete a failed resolution: synthesize the error placeholder, move
    /// the hash from in-flight to processed, and collect the placeholder.
    /// The failure is terminal for this run and is not cached.
    pub fn complete_failed(&mut self, identity: &Package, hash: String, error_msg: &str)
        requires
            old(self).wf(),
            old(self).in_flight_v().contains(hash@),
        ensures
            final(self).wf(),
            final(self).processed_v() == old(self).processed_v().push(hash@),
            final(self).results_v() == old(self).results_v().push(
                error_placeholder_of(identity.pv(), error_msg@),
            ),
            final(self).results_v().last().license == "UNKNOWN"@,
            final(self).results_v().last().debug_info == Some(
                "Error processing package: "@ + error_msg@,
            ),
            final(self).in_flight_v().len() == old(self).in_flight_v().len() - 1,
            forall|k: Seq<char>| #[trigger] final(self).in_flight_v().contains(k) <==> (old(
                self,
            ).in_flight_v().contains(k) && k != hash@),
            final(self).cache_v() == old(self).cache_v(),
            final(self).queue_v() == old(self).queue_v(),
            final(self).edges_v() == old(self).edges_v(),
            final(self).retry_mode() == old(self).retry_mode(),
            final(self).track_mode() == old(self).track_mode(),
    {
        remove_string(&mut self.in_flight, hash.as_str());
        let placeholder = error_placeholder(identity, error_msg);
        proof {
            assert(placeholder.pv().dependencies =~= Seq::<PkgV>::empty());
            assert(enqueue_filter(
                placeholder.pv().dependencies,
                old(self).processed_v().push(hash@),
            ) =~= Seq::<PkgV>::empty());
        }
        self.commit(hash, placeholder);
        proof {
            assert(self.queue_v() =~= old(self).queue_v());
        }
    }

    /// The popped identity is satisfied from the cache: it does not itself
    /// ask for a retry, the cache holds its hash, and the cached record is
    /// not an UNKNOWN entry bypassed by retry mode.
    pub open spec fn commits_from_cache(self, p: PkgV, h: Seq<char>) -> bool {
        &&& !(self.retry_mode() && p.retry_for_unknown)
        &&& self.cache_v().contains_key(h)
        &&& !(self.retry_mode() && self.cache_v()[h].license == "UNKNOWN"@)
    }

    /// The keys the cache holds, in insertion order.
    pub closed spec fn cache_keys(self) -> Seq<Seq<char>> {
        self.cache.key_seq()
    }

    /// Pop one identity and process it as far as the engine can on its own:
    /// discard it, commit it from the cache, or hand it out for resolution.
    pub fn step(&mut self) -> (r: StepOutcome)
        requires
            old(self).wf(),
        ensures
            final(self).wf(),
            final(self).retry_mode() == old(self).retry_mode(),
            final(self).track_mode() == old(self).track_mode(),
            final(self).cache_v() == old(self).cache_v(),
            final(self).cache_keys() == old(self).cache_keys(),
            match r {
                StepOutcome::QueueEmpty => *final(self) == *old(self) && old(
                    self,
                ).queue_v().len() == 0,
                StepOutcome::Skipped => {
                    &&& old(self).queue_v().len() > 0
                    &&& (ignored_pv(old(self).queue_v()[0]) || old(self).hash_done(
                        spec_package_hash(old(self).queue_v()[0]),
                    ))
                    &&& final(self).queue_v() == old(self).queue_v().subrange(
                        1,
                        old(self).queue_v().len() as int,
                    )
                    &&& final(self).processed_v() == old(self).processed_v()
                    &&& final(self).in_flight_v() == old(self).in_flight_v()
                    &&& final(self).results_v() == old(self).results_v()
                    &&& final(self).edges_v() == old(self).edges_v()
                },
                StepOutcome::Committed => {
                    let p = old(self).queue_v()[0];
                    let h = spec_package_hash(p);
                    let rec = old(self).cache_v()[h];
                    &&& old(self).queue_v().len() > 0
                    &&& !ignored_pv(p)
                    &&& !old(self).hash_done(h)
                    &&& old(self).commits_from_cache(p, h)
                    &&& final(self).processed_v() == old(self).processed_v().push(h)
                    &&& final(self).in_flight_v() == old(self).in_flight_v()
                    &&& final(self).results_v() == old(self).results_v().push(rec)
                    &&& final(self).queue_v() == old(self).queue_v().subrange(
                        1,
                        old(self).queue_v().len() as int,
                    ) + enqueue_filter(rec.dependencies, final(self).processed_v())
                    &&& final(self).edges_v() == edges_after_commit(
                        old(self).edges_v(),
                        old(self).track_mode(),
                        rec,
                    )
                },
                StepOutcome::NeedsResolve(pr, hs) => {
                    let p = old(self).queue_v()[0];
                    let h = spec_package_hash(p);
                    &&& old(self).queue_v().len() > 0
                    &&& !ignored_pv(p)
                    &&& !old(self).hash_done(h)
                    &&& !old(self).commits_from_cache(p, h)
                    &&& hs@ == h
                    &&& pr.pv() == (PkgV {
                        retry_for_unknown: p.retry_for_unknown || (old(self).retry_mode() && old(
                            self,
                        ).cache_v().contains_key(h) && old(self).cache_v()[h].license
                            == "UNKNOWN"@),
                        ..p
                    })
                    &&& spec_package_hash(pr.pv()) == h
                    &&& final(self).in_flight_v() == old(self).in_flight_v().push(h)
                    &&& final(self).queue_v() == old(self).queue_v().subrange(
                        1,
                        old(self).queue_v().len() as int,
                    )
                    &&& final(self).processed_v() == old(self).processed_v()
                    &&& final(self).results_v() == old(self).results_v()
                    &&& final(self).edges_v() == old(self).edges_v()
                },
            },
    {
        if self.queue.len() == 0 {
            proof {
                lemma_pvs(self.queue@);
            }
            return StepOutcome::QueueEmpty;
        }
        proof {
            lemma_pvs(self.queue@);
        }
        let package = self.queue.remove(0);
        proof {
            lemma_pvs(old(self).queue@);
            lemma_pvs(self.queue@);
            assert(self.queue@ =~= old(self).queue@.subrange(1, old(self).queue@.len() as int));
            assert(package.pv() == old(self).queue_v()[0]);
            assert(self.queue_v() =~= old(self).queue_v().subrange(
                1,
                old(self).queue_v().len() as int,
            ));
        }
        if should_ignore_package(&package) {
            return StepOutcome::Skipped;
        }
        let package_hash = generate_package_hash(&package);
        if contains_string(&self.processed, package_hash.as_str()) || contains_string(
            &self.in_flight,
            package_hash.as_str(),
        ) {
            return StepOutcome::Skipped;
        }
        let skip_cache = self.retry_unknown && package.retry_for_unknown;
        if !skip_cache {
            match self.cache.get(package_hash.as_str()) {
                Some(cached) => {
                    let needs_retry = self.retry_unknown && str_eq(
                        cached.license.as_str(),
                        "UNKNOWN",
                    );
                    if !needs_retry {
                        self.commit(package_hash, cached);
                        return StepOutcome::Committed;
                    }
                    let mut retry_package = package;
                    retry_package.retry_for_unknown = true;
                    proof {
                        lemma_pvs(retry_package.dependencies@);
                        assert(retry_package.pv() =~~= (PkgV {
                            retry_for_unknown: true,
                            ..old(self).queue_v()[0]
                        }));
                    }
                    self.push_in_flight(package_hash.clone());
                    return StepOutcome::NeedsResolve(retry_package, package_hash);
                },
                None => {
                    proof {
                        lemma_pvs(package.dependencies@);
                        assert(package.pv() =~~= (PkgV {
                            retry_for_unknown: package.pv().retry_for_unknown,
                            ..old(self).queue_v()[0]
                        }));
                    }
                    self.push_in_flight(package_hash.clone());
                    return StepOutcome::NeedsResolve(package, package_hash);
                },
            }
        } else {
            proof {
                lemma_pvs(package.dependencies@);
                assert(package.pv() =~~= (PkgV {
                    retry_for_unknown: package.pv().retry_for_unknown,
                    ..old(self).queue_v()[0]
                }));
            }
            self.push_in_flight(package_hash.clone());
            return StepOutcome::NeedsResolve(package, package_hash);
        }
    }

    /// Record a hash as handed out for resolution.
    fn push_in_flight(&mut self, hash: String)
        requires
            old(self).wf(),
            !old(self).hash_done(hash@),
        ensures
            final(self).wf(),
            final(self).in_flight_v() == old(self).in_flight_v().push(hash@),
            final(self).queue_v() == old(self).queue_v(),
            final(self).processed_v() == old(self).processed_v(),
            final(self).results_v() == old(self).results_v(),
            final(self).cache == old(self).cache,
            final(self).edges == old(self).edges,
            final(self).retry_mode() == old(self).retry_mode(),
            final(self).track_mode() == old(self).track_mode(),
    {
        let ghost f0 = self.in_flight@;
        self.in_flight.push(hash);
        proof {
            assert(self.in_flight_v() =~= string_views(f0).push(self.in_flight@.last()@));
            assert forall|a: int, b: int|
                0 <= a < b < self.in_flight_v().len() implies self.in_flight_v()[a]
                != self.in_flight_v()[b] by {
                if b < self.in_flight_v().len() - 1 {
                } else {
                    if string_views(f0)[a] == self.in_flight_v()[b] {
                        assert(string_views(f0).contains(self.in_flight_v()[b]));
                    }
                }
            }
            assert forall|h: Seq<char>| #[trigger] self.in_flight_v().contains(h)
                implies !self.processed_v().contains(h) by {
                let w = choose|w: int|
                    0 <= w < self.in_flight_v().len() && self.in_flight_v()[w] == h;
                if w < self.in_flight_v().len() - 1 {
                    assert(string_views(f0)[w] == h);
                    assert(old(self).in_flight_v().contains(h));
                }
            }
        }
    }

    /// All hashes accounted for: committed or currently being resolved.
    pub open spec fn done_v(self) -> Seq<Seq<char>> {
        self.processed_v() + self.in_flight_v()
    }

    /// The identity is accounted for in this state: discarded as a local
    /// development entry, its hash committed, its hash handed out for
    /// resolution, or still pending in the queue. The engine never simply
    /// drops an identity.
    pub open spec fn identity_accounted(self, p: PkgV) -> bool {
        ||| ignored_pv(p)
        ||| self.processed_v().contains(spec_package_hash(p))
        ||| self.in_flight_v().contains(spec_package_hash(p))
        ||| self.queue_v().contains(p)
    }


    /// Ask the engine what to do next: it drains ignored, duplicate and
    /// cache-satisfied identities on its own, and stops at the first one
    /// that needs the resolver, at an empty queue with work still in
    /// flight, or at the end of the run. This loop always terminates: each
    /// pass either shortens the queue or commits a fresh cache key.
    pub fn next_action(&mut self) -> (r: EngineStep)
        requires
            old(self).wf(),
        ensures
            final(self).wf(),
            final(self).retry_mode() == old(self).retry_mode(),
            final(self).track_mode() == old(self).track_mode(),
            final(self).cache_v() == old(self).cache_v(),
            old(self).processed_v().is_prefix_of(final(self).processed_v()),
            old(self).results_v().is_prefix_of(final(self).results_v()),
            results_match_cache(
                final(self).results_v(),
                final(self).processed_v(),
                final(self).cache_v(),
                old(self).results_v().len() as int,
            ),
            forall|j: int|
                0 <= j < old(self).queue_v().len() ==> final(self).identity_accounted(
                    #[trigger] old(self).queue_v()[j],
                ),
            match r {
                EngineStep::Finished => final(self).queue_v().len() == 0
                    && final(self).in_flight_v().len() == 0
                    && (forall|j: int|
                    0 <= j < old(self).queue_v().len() ==> ignored_pv(
                        #[trigger] old(self).queue_v()[j],
                    ) || final(self).processed_v().contains(
                        spec_package_hash(old(self).queue_v()[j]),
                    )),
                EngineStep::Wait => final(self).queue_v().len() == 0
                    && final(self).in_flight_v().len() > 0,
                EngineStep::Resolve(pr, hs) => {
                    &&& hs@ == spec_package_hash(pr.pv())
                    &&& !final(self).processed_v().contains(hs@)
                    &&& final(self).in_flight_v().contains(hs@)
                },
            },
    {
        proof {
            assert forall|j: int|
                0 <= j < old(self).queue_v().len() implies self.identity_accounted(
                #[trigger] old(self).queue_v()[j],
            ) by {
                assert(self.queue_v()[j] == old(self).queue_v()[j]);
            }
        }
        loop
            invariant
                self.wf(),
                self.retry_unknown == old(self).retry_unknown,
                self.track_deps == old(self).track_deps,
                self.cache_v() == old(self).cache_v(),
                self.cache.key_seq() == old(self).cache.key_seq(),
                old(self).processed_v().is_prefix_of(self.processed_v()),
                old(self).results_v().is_prefix_of(self.results_v()),
                results_match_cache(
                    self.results_v(),
                    self.processed_v(),
                    self.cache_v(),
                    old(self).results_v().len() as int,
                ),
                forall|j: int|
                    0 <= j < old(self).queue_v().len() ==> self.identity_accounted(
                        #[trigger] old(self).queue_v()[j],
                    ),
            decreases count_new(self.cache.key_seq(), self.done_v()), self.queue@.len(),
        {
            let ghost pre = *self;
            match self.step() {
                StepOutcome::QueueEmpty => {
                    if self.in_flight.len() == 0 {
                        proof {
                            assert(self.in_flight_v() =~= string_views(self.in_flight@));
                            assert(self.in_flight_v().len() == 0);
                            assert forall|j: int|
                                0 <= j < old(self).queue_v().len() implies ignored_pv(
                                #[trigger] old(self).queue_v()[j],
                            ) || self.processed_v().contains(
                                spec_package_hash(old(self).queue_v()[j]),
                            ) by {
                                assert(self.identity_accounted(old(self).queue_v()[j]));
                            }
                        }
                        return EngineStep::Finished;
                    } else {
                        return EngineStep::Wait;
                    }
                },
                StepOutcome::Skipped => {
                    proof {
                        lemma_pvs(pre.queue@);
                        lemma_pvs(self.queue@);
                        assert(self.done_v() == pre.done_v());
                        assert(self.queue@.len() < pre.queue@.len());
                        assert forall|j: int|
                            0 <= j < old(self).queue_v().len() implies self.identity_accounted(
                            #[trigger] old(self).queue_v()[j],
                        ) by {
                            let q = old(self).queue_v()[j];
                            assert(pre.identity_accounted(q));
                            if !ignored_pv(q) && !pre.processed_v().contains(spec_package_hash(q))
                                && !pre.in_flight_v().contains(spec_package_hash(q)) {
                                let w = choose|w: int|
                                    0 <= w < pre.queue_v().len() && pre.queue_v()[w] == q;
                                if w > 0 {
                                    assert(self.queue_v()[w - 1] == pre.queue_v()[w]);
                                    assert(self.queue_v().contains(q));
                                }
                            }
                        }
                    }
                },
                StepOutcome::Committed => {
                    proof {
                        let h = spec_package_hash(pre.queue_v()[0]);
                        let rec = pre.cache_v()[h];
                        lemma_concat_contains(pre.processed_v(), pre.in_flight_v(), h);
                        assert(!pre.done_v().contains(h));
                        assert(self.processed_v()[self.processed_v().len() - 1] == h);
                        lemma_concat_contains(self.processed_v(), self.in_flight_v(), h);
                        assert(self.processed_v().contains(h));
                        assert(self.done_v().contains(h));
                        assert forall|k: Seq<char>| #[trigger] pre.done_v().contains(k)
                            implies self.done_v().contains(k) by {
                            lemma_concat_contains(pre.processed_v(), pre.in_flight_v(), k);
                            lemma_concat_contains(self.processed_v(), self.in_flight_v(), k);
                            if pre.processed_v().contains(k) {
                                let w = choose|w: int|
                                    0 <= w < pre.processed_v().len() && pre.processed_v()[w] == k;
                                assert(self.processed_v()[w] == k);
                                assert(self.processed_v().contains(k));
                            }
                        }
                        self.cache.lemma_keys();
                        assert(self.cache.key_seq().contains(h));
                        lemma_count_strict(
                            self.cache.key_seq(),
                            pre.done_v(),
                            self.done_v(),
                            h,
                        );
                        lemma_prefix_push(old(self).processed_v(), pre.processed_v(), h);
                        lemma_prefix_push(old(self).results_v(), pre.results_v(), rec);
                        assert(results_match_cache(
                            self.results_v(),
                            self.processed_v(),
                            self.cache_v(),
                            old(self).results_v().len() as int,
                        )) by {
                            assert forall|i: int|
                                old(self).results_v().len() <= i < self.results_v().len()
                                    implies self.cache_v().contains_key(
                                    #[trigger] self.processed_v()[i],
                                ) && self.results_v()[i]
                                    == self.cache_v()[self.processed_v()[i]] by {
                                if i < pre.results_v().len() {
                                    assert(pre.cache_v().contains_key(pre.processed_v()[i]));
                                    assert(pre.results_v()[i]
                                        == pre.cache_v()[pre.processed_v()[i]]);
                                    assert(self.results_v()[i] == pre.results_v()[i]);
                                    assert(self.processed_v()[i] == pre.processed_v()[i]);
                                } else {
                                    assert(pre.results_v().len() == pre.processed_v().len());
                                    assert(i == pre.results_v().len());
                                    assert(self.results_v()[i] == rec);
                                    assert(self.processed_v()[i] == h);
                                    assert(pre.cache_v().contains_key(h));
                                }
                            }
                        }
                        assert forall|j: int|
                            0 <= j < old(self).queue_v().len() implies self.identity_accounted(
                            #[trigger] old(self).queue_v()[j],
                        ) by {
                            let q = old(self).queue_v()[j];
                            assert(pre.identity_accounted(q));
                            if !ignored_pv(q) && !pre.in_flight_v().contains(
                                spec_package_hash(q),
                            ) {
                                if pre.processed_v().contains(spec_package_hash(q)) {
                                    let w = choose|w: int|
                                        0 <= w < pre.processed_v().len() && pre.processed_v()[w]
                                            == spec_package_hash(q);
                                    assert(self.processed_v()[w] == spec_package_hash(q));
                                    assert(self.processed_v().contains(spec_package_hash(q)));
                                } else if pre.queue_v().contains(q) {
                                    let w = choose|w: int|
                                        0 <= w < pre.queue_v().len() && pre.queue_v()[w] == q;
                                    if w == 0 {
                                        assert(spec_package_hash(q) == h);
                                        assert(self.processed_v().contains(spec_package_hash(q)));
                                    } else {
                                        let rest = pre.queue_v().subrange(
                                            1,
                                            pre.queue_v().len() as int,
                                        );
                                        assert(rest[w - 1] == pre.queue_v()[w]);
                                        assert(self.queue_v()[w - 1] == rest[w - 1]);
                                        assert(self.queue_v().contains(q));
                                    }
                                }
                            }
                        }
                    }
                },
                StepOutcome::NeedsResolve(pr, hs) => {
                    proof {
                        lemma_concat_contains(self.processed_v(), self.in_flight_v(), hs@);
                        assert(self.in_flight_v()[self.in_flight_v().len() - 1] == hs@);
                        assert(self.in_flight_v().contains(hs@));
                        assert forall|j: int|
                            0 <= j < old(self).queue_v().len() implies self.identity_accounted(
                            #[trigger] old(self).queue_v()[j],
                        ) by {
                            let q = old(self).queue_v()[j];
                            assert(pre.identity_accounted(q));
                            if !ignored_pv(q) && !pre.processed_v().contains(
                                spec_package_hash(q),
                            ) {
                                if pre.in_flight_v().contains(spec_package_hash(q)) {
                                    let w = choose|w: int|
                                        0 <= w < pre.in_flight_v().len() && pre.in_flight_v()[w]
                                            == spec_package_hash(q);
                                    assert(self.in_flight_v()[w] == spec_package_hash(q));
                                    assert(self.in_flight_v().contains(spec_package_hash(q)));
                                } else if pre.queue_v().contains(q) {
                                    let w = choose|w: int|
                                        0 <= w < pre.queue_v().len() && pre.queue_v()[w] == q;
                                    if w == 0 {
                                        assert(spec_package_hash(q) == hs@);
                                    } else {
                                        assert(self.queue_v()[w - 1] == pre.queue_v()[w]);
                                        assert(self.queue_v().contains(q));
                                    }
                                }
                            }
                        }
                    }
                    return EngineStep::Resolve(pr, hs);
                },
            }
        }
    }
}

spec fn count_new(keys: Seq<Seq<char>>, done: Seq<Seq<char>>) -> nat
    decreases keys.len(),
{
    if keys.len() == 0 {
        0
    } else {
        count_new(keys.drop_last(), done) + if done.contains(keys.last()) {
            0nat
        } else {
            1nat
        }
    }
}

proof fn lemma_concat_contains(a: Seq<Seq<char>>, b: Seq<Seq<char>>, k: Seq<char>)
    ensures
        (a + b).contains(k) <==> a.contains(k) || b.contains(k),
{
    if (a + b).contains(k) {
        let w = choose|w: int| 0 <= w < (a + b).len() && (a + b)[w] == k;
        if w < a.len() {
            assert(a[w] == k);
        } else {
            assert(b[w - a.len()] == k);
        }
    }
    if a.contains(k) {
        let w = choose|w: int| 0 <= w < a.len() && a[w] == k;
        assert((a + b)[w] == k);
    }
    if b.contains(k) {
        let w = choose|w: int| 0 <= w < b.len() && b[w] == k;
        assert((a + b)[a.len() + w] == k);
    }
}

proof fn lemma_count_mono(keys: Seq<Seq<char>>, d1: Seq<Seq<char>>, d2: Seq<Seq<char>>)
    requires
        forall|k: Seq<char>| #[trigger] d1.contains(k) ==> d2.contains(k),
    ensures
        count_new(keys, d2) <= count_new(keys, d1),
    decreases keys.len(),
{
    if keys.len() > 0 {
        lemma_count_mono(keys.drop_last(), d1, d2);
    }
}

proof fn lemma_count_strict(
    keys: Seq<Seq<char>>,
    d1: Seq<Seq<char>>,
    d2: Seq<Seq<char>>,
    k0: Seq<char>,
)
    requires
        forall|k: Seq<char>| #[trigger] d1.contains(k) ==> d2.contains(k),
        !d1.contains(k0),
        d2.contains(k0),
        keys.contains(k0),
    ensures
        count_new(keys, d2) < count_new(keys, d1),
    decreases keys.len(),
{
    if keys.last() == k0 {
        lemma_count_mono(keys.drop_last(), d1, d2);
    } else {
        let w = choose|w: int| 0 <= w < keys.len() && keys[w] == k0;
        assert(keys.drop_last()[w] == k0);
        assert(keys.drop_last().contains(k0));
        lemma_count_strict(keys.drop_last(), d1, d2, k0);
    }
}

/// Records and hashes appended from position `from` on correspond through
/// the cache: each appended record equals the cache's record under the hash
/// at the same position.
pub open spec fn results_match_cache(
    results: Seq<PkgV>,
    processed: Seq<Seq<char>>,
    cache: Map<Seq<char>, PkgV>,
    from: int,
) -> bool {
    forall|i: int|
        from <= i < results.len() ==> cache.contains_key(#[trigger] processed[i]) && results[i]
            == cache[processed[i]]
}

proof fn lemma_prefix_push<T>(a: Seq<T>, b: Seq<T>, x: T)
    requires
        a.is_prefix_of(b),
    ensures
        a.is_prefix_of(b.push(x)),
{
    assert(b.push(x).subrange(0, a.len() as int) =~= b.subrange(0, a.len() as int));
}

impl Engine {
    /// The collected results so far.
    pub fn results(&self) -> (r: &Vec<Package>)
        ensures
            pvs(r@) == self.results_v(),
    {
        &self.results
    }

    /// How many identities still wait in the queue.
    pub fn queue_len(&self) -> (r: usize)
        ensures
            r == self.queue_v().len(),
    {
        proof {
            lemma_pvs(self.queue@);
        }
        self.queue.len()
    }

    /// How many hashes are handed out and not yet completed.
    pub fn in_flight_len(&self) -> (r: usize)
        ensures
            r == self.in_flight_v().len(),
    {
        self.in_flight.len()
    }

    /// How many hashes have been committed.
    pub fn processed_len(&self) -> (r: usize)
        ensures
            r == self.processed_v().len(),
    {
        self.processed.len()
    }

    /// Whether a hash has been committed.
    pub fn processed_contains(&self, hash: &str) -> (r: bool)
        ensures
            r == self.processed_v().contains(hash@),
    {
        contains_string(&self.processed, hash)
    }

    /// A fresh copy of the cached record under a hash, when one is stored.
    pub fn cached_record(&self, hash: &str) -> (r: Option<Package>)
        requires
            self.wf(),
        ensures
            match r {
                Some(p) => self.cache_v().contains_key(hash@) && p.pv() == self.cache_v()[hash@],
                None => !self.cache_v().contains_key(hash@),
            },
    {
        self.cache.get(hash)
    }

    /// The recorded children of a parent label, when any are recorded.
    pub fn edge_children_of(&self, label: &str) -> (r: Option<Vec<String>>)
        requires
            self.wf(),
        ensures
            match r {
                Some(v) => self.edges_v().contains_key(label@) && crate::edges::views_of(v@)
                    == self.edges_v()[label@],
                None => !self.edges_v().contains_key(label@),
            },
    {
        self.edges.children_of(label)
    }

    /// A label is a root of the discovered graph: recorded as a parent and
    /// never as a child.
    pub open spec fn edge_is_root(self, k: Seq<char>) -> bool {
        self.edges_v().contains_key(k) && !exists|p: Seq<char>|
            #[trigger] self.edges_v().contains_key(p) && self.edges_v()[p].contains(k)
    }

    /// The roots of the discovered graph, in insertion order.
    pub fn graph_roots(&self) -> (r: Vec<String>)
        requires
            self.wf(),
        ensures
            forall|j: int| 0 <= j < r@.len() ==> #[trigger] self.edge_is_root(r@[j]@),
            forall|k: Seq<char>| #[trigger]
                self.edge_is_root(k) ==> crate::edges::views_of(r@).contains(k),
    {
        let r = self.edges.roots();
        proof {
            assert forall|j: int| 0 <= j < r@.len() implies #[trigger] self.edge_is_root(
                r@[j]@,
            ) by {
                lemma_root_defs(*self, r@[j]@);
            }
            assert forall|k: Seq<char>| #[trigger] self.edge_is_root(k)
                implies crate::edges::views_of(r@).contains(k) by {
                lemma_root_defs(*self, k);
            }
        }
        r
    }
}

proof fn lemma_root_defs(e: Engine, k: Seq<char>)
    ensures
        e.edge_is_root(k) == e.edges.is_root(k),
{
    if e.edges.appears_as_child(k) {
        let p = choose|p: Seq<char>|
            #![auto] e.edges.contents().contains_key(p) && e.edges.contents()[p].contains(k);
        assert(e.edges_v().contains_key(p) && e.edges_v()[p].contains(k));
    }
    if exists|p: Seq<char>| #[trigger] e.edges_v().contains_key(p) && e.edges_v()[p].contains(k) {
        let p = choose|p: Seq<char>|
            #![auto] e.edges_v().contains_key(p) && e.edges_v()[p].contains(k);
        assert(e.edges.contents().contains_key(p) && e.edges.contents()[p].contains(k));
    }
}

/// Retry mode treats a cached UNKNOWN record as a miss: the identity goes
/// back to the resolver instead of committing the stale entry.
pub proof fn lemma_retry_bypasses_unknown(e: Engine, p: PkgV, h: Seq<char>)
    requires
        e.retry_mode(),
        e.cache_v().contains_key(h),
        e.cache_v()[h].license == "UNKNOWN"@,
    ensures
        !e.commits_from_cache(p, h),
{
}

/// Retry mode bypasses only UNKNOWN entries: a cached record with a known
/// license still commits from the cache and is never needlessly re-resolved.
pub proof fn lemma_retry_keeps_known_entries(e: Engine, p: PkgV, h: Seq<char>)
    requires
        e.cache_v().contains_key(h),
        e.cache_v()[h].license != "UNKNOWN"@,
        !p.retry_for_unknown,
    ensures
        e.commits_from_cache(p, h),
{
}

/// At-most-once bookkeeping: the processed set never holds a hash twice,
/// no in-flight hash is already processed, and the results collector holds
/// exactly one record per processed hash — as many entries as distinct
/// canonical hashes ever committed.
pub proof fn lemma_at_most_once(e: Engine)
    requires
        e.wf(),
    ensures
        distinct_views(e.processed_v()),
        distinct_views(e.in_flight_v()),
        forall|h: Seq<char>| #[trigger] e.in_flight_v().contains(h) ==> !e.processed_v().contains(
            h,
        ),
        e.results_v().len() == e.processed_v().len(),
{
}

} // verus!
