use vstd::prelude::*;
use vstd::pervasive::VecAdditionalExecFns;

use crate::strutil::str_eq;

verus! {

// Adjacency recorder: maps each resolved parent label to the labels of its
// dependency children, so the discovered graph can be reconstructed.

pub open spec fn views_of(v: Seq<String>) -> Seq<Seq<char>> {
    v.map_values(|s: String| s@)
}

spec fn edge_map(es: Seq<(String, Vec<String>)>) -> Map<Seq<char>, Seq<Seq<char>>>
    decreases es.len(),
{
    if es.len() == 0 {
        Map::<Seq<char>, Seq<Seq<char>>>::empty()
    } else {
        edge_map(es.drop_last()).insert(es.last().0@, views_of(es.last().1@))
    }
}

proof fn lemma_edge_map_get(es: Seq<(String, Vec<String>)>, i: int)
    requires
        0 <= i < es.len(),
        forall|j: int| i < j < es.len() ==> es[j].0@ != es[i].0@,
    ensures
        edge_map(es).contains_key(es[i].0@),
        edge_map(es)[es[i].0@] == views_of(es[i].1@),
    decreases es.len(),
{
    if i == es.len() - 1 {
    } else {
        assert(forall|j: int|
            i < j < es.drop_last().len() ==> es.drop_last()[j].0@ != es.drop_last()[i].0@);
        lemma_edge_map_get(es.drop_last(), i);
    }
}

proof fn lemma_edge_map_absent(es: Seq<(String, Vec<String>)>, k: Seq<char>)
    requires
        forall|j: int| 0 <= j < es.len() ==> es[j].0@ != k,
    ensures
        !edge_map(es).contains_key(k),
    decreases es.len(),
{
    if es.len() > 0 {
        lemma_edge_map_absent(es.drop_last(), k);
    }
}

proof fn lemma_edge_map_update(es: Seq<(String, Vec<String>)>, i: int, x: (String, Vec<String>))
    requires
        0 <= i < es.len(),
        x.0@ == es[i].0@,
        forall|j1: int, j2: int| 0 <= j1 < j2 < es.len() ==> es[j1].0@ != es[j2].0@,
    ensures
        edge_map(es.update(i, x)) == edge_map(es).insert(es[i].0@, views_of(x.1@)),
    decreases es.len(),
{
    let es2 = es.update(i, x);
    let k = es[i].0@;
    if i == es.len() - 1 {
        assert(es2.drop_last() =~= es.drop_last());
        assert(es2.last() == x);
        assert(edge_map(es).insert(k, views_of(x.1@)) =~= edge_map(es.drop_last()).insert(
            k,
            views_of(x.1@),
        ));
    } else {
        assert(forall|j1: int, j2: int|
            0 <= j1 < j2 < es.drop_last().len() ==> es.drop_last()[j1].0@ != es.drop_last()[j2].0@);
        lemma_edge_map_update(es.drop_last(), i, x);
        assert(es2.drop_last() =~= es.drop_last().update(i, x));
        assert(es2.last() == es.last());
        assert(k != es.last().0@);
        assert(edge_map(es.drop_last()).insert(k, views_of(x.1@)).insert(
            es.last().0@,
            views_of(es.last().1@),
        ) =~= edge_map(es.drop_last()).insert(es.last().0@, views_of(es.last().1@)).insert(
            k,
            views_of(x.1@),
        ));
    }
}

/// Maps each resolved parent to the labels of its dependency children.
pub struct EdgeRecorder {
    entries: Vec<(String, Vec<String>)>,
}

impl EdgeRecorder {
    /// The recorder as a map from parent label to child labels in order.
    pub closed spec fn contents(self) -> Map<Seq<char>, Seq<Seq<char>>> {
        edge_map(self.entries@)
    }

    /// The parent labels in insertion order.
    pub closed spec fn key_seq(self) -> Seq<Seq<char>> {
        self.entries@.map_values(|e: (String, Vec<String>)| e.0@)
    }

    pub closed spec fn wf(self) -> bool {
        forall|j1: int, j2: int|
            0 <= j1 < j2 < self.entries@.len() ==> self.entries@[j1].0@ != self.entries@[j2].0@
    }

    /// The children recorded so far for a parent, empty when none are.
    pub open spec fn children_view(self, parent: Seq<char>) -> Seq<Seq<char>> {
        if self.contents().contains_key(parent) {
            self.contents()[parent]
        } else {
            Seq::<Seq<char>>::empty()
        }
    }

    /// The label appears among some parent's recorded children.
    pub open spec fn appears_as_child(self, k: Seq<char>) -> bool {
        exists|p: Seq<char>|
            #[trigger] self.contents().contains_key(p) && self.contents()[p].contains(k)
    }

    /// A root: recorded as a parent, never recorded as a child.
    pub open spec fn is_root(self, k: Seq<char>) -> bool {
        self.contents().contains_key(k) && !self.appears_as_child(k)
    }

    pub fn new() -> (r: EdgeRecorder)
        ensures
            r.wf(),
            r.contents() == Map::<Seq<char>, Seq<Seq<char>>>::empty(),
            r.key_seq() == Seq::<Seq<char>>::empty(),
    {
        let r = EdgeRecorder { entries: Vec::new() };
        proof {
            assert(r.entries@.map_values(|e: (String, Vec<String>)| e.0@)
                =~= Seq::<Seq<char>>::empty());
        }
        r
    }

    /// Append one child label under a parent label, creating the parent's
    /// entry when it does not exist yet.
    pub fn record(&mut self, parent: &str, child: String)
        requires
            old(self).wf(),
        ensures
            final(self).wf(),
            final(self).contents() == old(self).contents().insert(
                parent@,
                old(self).children_view(parent@).push(child@),
            ),
            final(self).key_seq() == if old(self).contents().contains_key(parent@) {
                old(self).key_seq()
            } else {
                old(self).key_seq().push(parent@)
            },
    {
        let ghost cv = child@;
        let n = self.entries.len();
        let mut i: usize = 0;
        while i < n
            invariant
                i <= n,
                n == self.entries@.len(),
                old(self).wf(),
                self.entries@ == old(self).entries@,
                child@ == cv,
                forall|j: int| 0 <= j < i ==> self.entries@[j].0@ != parent@,
            decreases n - i,
        {
            if str_eq(self.entries[i].0.as_str(), parent) {
                proof {
                    lemma_edge_map_get(self.entries@, i as int);
                }
                let k = self.entries[i].0.clone();
                let mut v = self.entries[i].1.clone();
                proof {
                    assert(views_of(v@) =~= views_of(self.entries@[i as int].1@));
                }
                v.push(child);
                proof {
                    assert(views_of(v@) =~= views_of(old(self).entries@[i as int].1@).push(cv));
                }
                let pair = (k, v);
                let ghost pair_v = pair;
                self.entries.set(i, pair);
                proof {
                    assert(self.entries@ == old(self).entries@.update(i as int, pair_v));
                    lemma_edge_map_update(old(self).entries@, i as int, pair_v);
                    assert(final(self).key_seq() =~= old(self).key_seq());
                    assert(forall|j1: int, j2: int|
                        0 <= j1 < j2 < self.entries@.len() ==> self.entries@[j1].0@
                            != self.entries@[j2].0@);
                }
                return;
            }
            i += 1;
        }
        proof {
            lemma_edge_map_absent(self.entries@, parent@);
        }
        let mut v: Vec<String> = Vec::new();
        v.push(child);
        proof {
            assert(views_of(v@) =~= Seq::<Seq<char>>::empty().push(cv));
        }
        let ghost old_es = self.entries@;
        self.entries.push((parent.to_owned(), v));
        proof {
            assert(self.entries@.drop_last() =~= old_es);
            assert(self.entries@.last().0@ == parent@);
            assert(views_of(self.entries@.last().1@) =~= Seq::<Seq<char>>::empty().push(cv));
            assert(final(self).key_seq() =~= old(self).key_seq().push(parent@));
            assert(forall|j1: int, j2: int|
                0 <= j1 < j2 < self.entries@.len() ==> self.entries@[j1].0@
                    != self.entries@[j2].0@);
        }
    }

    /// The recorded children of a parent label, when any are recorded.
    pub fn children_of(&self, parent: &str) -> (r: Option<Vec<String>>)
        requires
            self.wf(),
        ensures
            match r {
                Some(v) => self.contents().contains_key(parent@) && views_of(v@)
                    == self.contents()[parent@],
                None => !self.contents().contains_key(parent@),
            },
    {
        let n = self.entries.len();
        let mut i: usize = 0;
        while i < n
            invariant
                i <= n,
                n == self.entries@.len(),
                self.wf(),
                forall|j: int| 0 <= j < i ==> self.entries@[j].0@ != parent@,
            decreases n - i,
        {
            if str_eq(self.entries[i].0.as_str(), parent) {
                proof {
                    lemma_edge_map_get(self.entries@, i as int);
                }
                let v = self.entries[i].1.clone();
                proof {
                    assert(views_of(v@) =~= views_of(self.entries@[i as int].1@));
                }
                return Some(v);
            }
            i += 1;
        }
        proof {
            lemma_edge_map_absent(self.entries@, parent@);
        }
        None
    }

    /// Every parent label of the contents map corresponds to an entry.
    proof fn lemma_index_correspondence(self)
        requires
            self.wf(),
        ensures
            forall|j: int| #![trigger self.entries@[j]]
                0 <= j < self.entries@.len() ==> self.contents().contains_key(self.entries@[j].0@)
                    && self.contents()[self.entries@[j].0@] == views_of(self.entries@[j].1@),
            forall|k: Seq<char>| #[trigger]
                self.contents().contains_key(k) ==> exists|j: int|
                    0 <= j < self.entries@.len() && self.entries@[j].0@ == k,
        decreases self.entries@.len(),
    {
        assert forall|j: int|
            0 <= j < self.entries@.len() implies #[trigger] self.contents().contains_key(
            self.entries@[j].0@,
        ) && self.contents()[self.entries@[j].0@] == views_of(self.entries@[j].1@) by {
            lemma_edge_map_get(self.entries@, j);
        }
        lemma_edge_keys(self.entries@);
    }

    /// Whether the label appears among any parent's recorded children.
    fn appears_as_child_exec(&self, k: &str) -> (r: bool)
        requires
            self.wf(),
        ensures
            r == self.appears_as_child(k@),
    {
        proof {
            self.lemma_index_correspondence();
        }
        let n = self.entries.len();
        let mut j: usize = 0;
        while j < n
            invariant
                j <= n,
                n == self.entries@.len(),
                self.wf(),
                forall|a: int| #![trigger self.entries@[a]]
                    0 <= a < j ==> !views_of(self.entries@[a].1@).contains(k@),
            decreases n - j,
        {
            proof {
                self.lemma_index_correspondence();
            }
            let m = self.entries[j].1.len();
            let mut l: usize = 0;
            while l < m
                invariant
                    l <= m,
                    j < n,
                    n == self.entries@.len(),
                    m == self.entries@[j as int].1@.len(),
                    self.wf(),
                    forall|b: int| 0 <= b < l ==> self.entries@[j as int].1@[b]@ != k@,
                decreases m - l,
            {
                if str_eq(self.entries[j].1[l].as_str(), k) {
                    proof {
                        self.lemma_index_correspondence();
                        assert(views_of(self.entries@[j as int].1@)[l as int] == k@);
                        assert(self.contents().contains_key(self.entries@[j as int].0@)
                            && self.contents()[self.entries@[j as int].0@].contains(k@));
                    }
                    return true;
                }
                l += 1;
            }
            proof {
                assert(forall|b: int|
                    0 <= b < views_of(self.entries@[j as int].1@).len()
                        ==> views_of(self.entries@[j as int].1@)[b]
                        != k@);
                assert(!views_of(self.entries@[j as int].1@).contains(k@));
            }
            j += 1;
        }
        proof {
            self.lemma_index_correspondence();
            if self.appears_as_child(k@) {
                let p = choose|p: Seq<char>|
                    #[trigger] self.contents().contains_key(p) && self.contents()[p].contains(k@);
                let j0 = choose|j0: int|
                    0 <= j0 < self.entries@.len() && self.entries@[j0].0@ == p;
                assert(!views_of(self.entries@[j0].1@).contains(k@));
                assert(false);
            }
        }
        false
    }

    /// The labels recorded as parents that never appear as a child: the roots
    /// of the discovered graph, in insertion order.
    pub fn roots(&self) -> (r: Vec<String>)
        requires
            self.wf(),
        ensures
            forall|j: int| 0 <= j < r@.len() ==> #[trigger] self.is_root(r@[j]@),
            forall|k: Seq<char>| #[trigger] self.is_root(k) ==> views_of(r@).contains(k),
    {
        proof {
            self.lemma_index_correspondence();
        }
        let n = self.entries.len();
        let mut out: Vec<String> = Vec::new();
        let mut i: usize = 0;
        while i < n
            invariant
                i <= n,
                n == self.entries@.len(),
                self.wf(),
                forall|j: int| 0 <= j < out@.len() ==> #[trigger] self.is_root(out@[j]@),
                forall|a: int| #![trigger self.entries@[a]]
                    0 <= a < i ==> (self.is_root(self.entries@[a].0@) ==> views_of(out@).contains(
                        self.entries@[a].0@,
                    )),
            decreases n - i,
        {
            let ghost old_out = out@;
            if !self.appears_as_child_exec(self.entries[i].0.as_str()) {
                proof {
                    self.lemma_index_correspondence();
                    assert(self.is_root(self.entries@[i as int].0@));
                }
                out.push(self.entries[i].0.clone());
                proof {
                    assert(out@[out@.len() - 1]@ == self.entries@[i as int].0@);
                    assert(forall|a: int|
                        0 <= a < old_out.len() ==> out@[a] == old_out[a]);
                    assert(views_of(out@)[out@.len() - 1] == self.entries@[i as int].0@);
                }
            }
            proof {
                assert(forall|a: int|
                    0 <= a < old_out.len() ==> views_of(out@).contains(old_out[a]@) || true);
                assert forall|a: int| #![trigger self.entries@[a]]
                    0 <= a < i + 1 && self.is_root(self.entries@[a].0@) implies views_of(
                    out@,
                ).contains(self.entries@[a].0@) by {
                    if a < i {
                        assert(views_of(old_out).contains(self.entries@[a].0@));
                        let w = choose|w: int|
                            0 <= w < old_out.len() && views_of(old_out)[w] == self.entries@[a].0@;
                        assert(views_of(out@)[w] == self.entries@[a].0@);
                    } else {
                        assert(views_of(out@)[out@.len() - 1] == self.entries@[a].0@);
                    }
                }
            }
            i += 1;
        }
        proof {
            self.lemma_index_correspondence();
            assert forall|k: Seq<char>| #[trigger] self.is_root(k) implies views_of(out@).contains(
                k,
            ) by {
                let j0 = choose|j0: int|
                    0 <= j0 < self.entries@.len() && self.entries@[j0].0@ == k;
                assert(self.entries@[j0].0@ == k);
            }
        }
        out
    }
}

proof fn lemma_edge_keys(es: Seq<(String, Vec<String>)>)
    ensures
        forall|k: Seq<char>| #[trigger]
            edge_map(es).contains_key(k) ==> exists|j: int|
                0 <= j < es.len() && es[j].0@ == k,
    decreases es.len(),
{
    if es.len() > 0 {
        lemma_edge_keys(es.drop_last());
        assert forall|k: Seq<char>| #[trigger] edge_map(es).contains_key(k) implies exists|j: int|
            0 <= j < es.len() && es[j].0@ == k by {
            if k == es.last().0@ {
                assert(es[es.len() - 1].0@ == k);
            } else {
                assert(edge_map(es.drop_last()).contains_key(k));
                let j = choose|j: int|
                    0 <= j < es.drop_last().len() && es.drop_last()[j].0@ == k;
                assert(es[j].0@ == k);
            }
        }
    }
}

} // verus!
