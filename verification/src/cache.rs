use vstd::prelude::*;
use vstd::pervasive::VecAdditionalExecFns;

use crate::pkg::{Package, PkgV};
use crate::strutil::str_eq;

verus! {

// Content-addressed result cache, an in-memory key-to-record store. The
// engine owns one per run; persistence of its entries is a caller concern.

spec fn entries_map(es: Seq<(String, Package)>) -> Map<Seq<char>, PkgV>
    decreases es.len(),
{
    if es.len() == 0 {
        Map::<Seq<char>, PkgV>::empty()
    } else {
        entries_map(es.drop_last()).insert(es.last().0@, es.last().1.pv())
    }
}

proof fn lemma_entries_map_get(es: Seq<(String, Package)>, i: int)
    requires
        0 <= i < es.len(),
        forall|j: int| i < j < es.len() ==> es[j].0@ != es[i].0@,
    ensures
        entries_map(es).contains_key(es[i].0@),
        entries_map(es)[es[i].0@] == es[i].1.pv(),
    decreases es.len(),
{
    if i == es.len() - 1 {
    } else {
        assert(forall|j: int|
            i < j < es.drop_last().len() ==> es.drop_last()[j].0@ != es.drop_last()[i].0@);
        lemma_entries_map_get(es.drop_last(), i);
    }
}

proof fn lemma_entries_map_absent(es: Seq<(String, Package)>, k: Seq<char>)
    requires
        forall|j: int| 0 <= j < es.len() ==> es[j].0@ != k,
    ensures
        !entries_map(es).contains_key(k),
    decreases es.len(),
{
    if es.len() > 0 {
        lemma_entries_map_absent(es.drop_last(), k);
    }
}

proof fn lemma_entries_map_update(es: Seq<(String, Package)>, i: int, x: (String, Package))
    requires
        0 <= i < es.len(),
        x.0@ == es[i].0@,
        forall|j1: int, j2: int| 0 <= j1 < j2 < es.len() ==> es[j1].0@ != es[j2].0@,
    ensures
        entries_map(es.update(i, x)) == entries_map(es).insert(es[i].0@, x.1.pv()),
    decreases es.len(),
{
    let es2 = es.update(i, x);
    let k = es[i].0@;
    if i == es.len() - 1 {
        assert(es2.drop_last() =~= es.drop_last());
        assert(es2.last() == x);
        assert(entries_map(es).insert(k, x.1.pv()) =~= entries_map(es.drop_last()).insert(
            k,
            x.1.pv(),
        ));
    } else {
        assert(forall|j1: int, j2: int|
            0 <= j1 < j2 < es.drop_last().len() ==> es.drop_last()[j1].0@ != es.drop_last()[j2].0@);
        lemma_entries_map_update(es.drop_last(), i, x);
        assert(es2.drop_last() =~= es.drop_last().update(i, x));
        assert(es2.last() == es.last());
        assert(k != es.last().0@);
        assert(entries_map(es.drop_last()).insert(k, x.1.pv()).insert(
            es.last().0@,
            es.last().1.pv(),
        ) =~= entries_map(es.drop_last()).insert(es.last().0@, es.last().1.pv()).insert(
            k,
            x.1.pv(),
        ));
    }
}

proof fn lemma_entries_keys(es: Seq<(String, Package)>)
    ensures
        forall|k: Seq<char>| #[trigger]
            entries_map(es).contains_key(k) ==> es.map_values(|e: (String, Package)| e.0@).contains(
                k,
            ),
    decreases es.len(),
{
    if es.len() > 0 {
        lemma_entries_keys(es.drop_last());
        assert forall|k: Seq<char>| #[trigger]
            entries_map(es).contains_key(k) implies es.map_values(
            |e: (String, Package)| e.0@,
        ).contains(k) by {
            let keys = es.map_values(|e: (String, Package)| e.0@);
            if k == es.last().0@ {
                assert(keys[es.len() - 1] == k);
            } else {
                assert(entries_map(es.drop_last()).contains_key(k));
                let dkeys = es.drop_last().map_values(|e: (String, Package)| e.0@);
                assert(dkeys.contains(k));
                let j = choose|j: int| 0 <= j < dkeys.len() && dkeys[j] == k;
                assert(keys[j] == k);
            }
        }
    }
}

/// Content-addressed key-to-record store.
pub struct CacheStore {
    entries: Vec<(String, Package)>,
}

impl CacheStore {
    /// The store as a map from key to record value.
    pub closed spec fn contents(self) -> Map<Seq<char>, PkgV> {
        entries_map(self.entries@)
    }

    /// The keys in insertion order.
    pub closed spec fn key_seq(self) -> Seq<Seq<char>> {
        self.entries@.map_values(|e: (String, Package)| e.0@)
    }

    /// Every key occurs once.
    pub closed spec fn wf(self) -> bool {
        forall|j1: int, j2: int|
            0 <= j1 < j2 < self.entries@.len() ==> self.entries@[j1].0@ != self.entries@[j2].0@
    }

    /// A key of the contents map stands in the key sequence.
    pub proof fn lemma_keys(self)
        ensures
            forall|k: Seq<char>| #[trigger]
                self.contents().contains_key(k) ==> self.key_seq().contains(k),
    {
        lemma_entries_keys(self.entries@);
    }

    pub fn new() -> (r: CacheStore)
        ensures
            r.wf(),
            r.contents() == Map::<Seq<char>, PkgV>::empty(),
            r.key_seq() == Seq::<Seq<char>>::empty(),
    {
        let r = CacheStore { entries: Vec::new() };
        proof {
            assert(r.entries@.map_values(|e: (String, Package)| e.0@)
                =~= Seq::<Seq<char>>::empty());
        }
        r
    }

    /// Look a key up; a hit hands back a fresh copy of the stored record.
    pub fn get(&self, key: &str) -> (r: Option<Package>)
        requires
            self.wf(),
        ensures
            match r {
                Some(p) => self.contents().contains_key(key@) && p.pv() == self.contents()[key@]
                    && self.key_seq().contains(key@),
                None => !self.contents().contains_key(key@),
            },
    {
        let n = self.entries.len();
        let mut i: usize = 0;
        while i < n
            invariant
                i <= n,
                n == self.entries@.len(),
                self.wf(),
                forall|j: int| 0 <= j < i ==> self.entries@[j].0@ != key@,
            decreases n - i,
    {
            if str_eq(self.entries[i].0.as_str(), key) {
                proof {
                    lemma_entries_map_get(self.entries@, i as int);
                    assert(self.key_seq()[i as int] == key@);
                }
                return Some(self.entries[i].1.duplicate());
            }
            i += 1;
        }
        proof {
            lemma_entries_map_absent(self.entries@, key@);
        }
        None
    }

    /// Store a record under a key, replacing any previous record wholesale.
    pub fn put(&mut self, key: String, record: Package)
        requires
            old(self).wf(),
        ensures
            final(self).wf(),
            final(self).contents() == old(self).contents().insert(key@, record.pv()),
            final(self).key_seq() == if old(self).contents().contains_key(key@) {
                old(self).key_seq()
            } else {
                old(self).key_seq().push(key@)
            },
    {
        let ghost kv = key@;
        let ghost rv = record.pv();
        let n = self.entries.len();
        let mut i: usize = 0;
        while i < n
            invariant
                i <= n,
                n == self.entries@.len(),
                old(self).wf(),
                self.entries@ == old(self).entries@,
                key@ == kv,
                record.pv() == rv,
                forall|j: int| 0 <= j < i ==> self.entries@[j].0@ != kv,
            decreases n - i,
        {
            if str_eq(self.entries[i].0.as_str(), key.as_str()) {
                proof {
                    lemma_entries_map_get(self.entries@, i as int);
                }
                let pair = (key, record);
                let ghost pair_v = pair;
                self.entries.set(i, pair);
                proof {
                    assert(self.entries@ == old(self).entries@.update(i as int, pair_v));
                    assert(pair_v.0@ == kv);
                    assert(pair_v.1.pv() == rv);
                    lemma_entries_map_update(old(self).entries@, i as int, pair_v);
                    assert(final(self).key_seq() =~= old(self).key_seq());
                    assert(forall|j1: int, j2: int|
                        0 <= j1 < j2 < self.entries@.len() ==> self.entries@[j1].0@
                            != self.entries@[j2].0@);
                }
                return;
            }
            i += 1;
        }
        proof {
            lemma_entries_map_absent(self.entries@, key@);
        }
        let ghost old_es = self.entries@;
        self.entries.push((key, record));
        proof {
            assert(self.entries@.drop_last() =~= old_es);
            assert(self.entries@.last().0@ == kv);
            assert(self.entries@.last().1.pv() == rv);
            assert(final(self).key_seq() =~= old(self).key_seq().push(kv));
            assert(forall|j1: int, j2: int|
                0 <= j1 < j2 < self.entries@.len() ==> self.entries@[j1].0@
                    != self.entries@[j2].0@);
        }
    }
}

/// Storing a record and then reading the same key back returns a record equal
/// to the stored one in every field.
pub proof fn lemma_cache_round_trip(c0: CacheStore, c1: CacheStore, k: Seq<char>, v: PkgV)
    requires
        c1.contents() == c0.contents().insert(k, v),
    ensures
        c1.contents().contains_key(k),
        c1.contents()[k] == v,
{
}

} // verus!
