//! The working graph the builder materializes: nodes deduplicated by label
//! in first-seen order, and at most one directed labelled edge per ordered
//! node pair, the later predicate overwriting the earlier.

use vstd::prelude::*;
use crate::strutil::str_eq;

verus! {

/// A directed edge between two node indices, carrying a predicate label.
pub struct GraphEdge {
    pub from: usize,
    pub to: usize,
    pub label: String,
}

/// The deduplicated class graph.
pub struct VizGraph {
    pub nodes: Vec<String>,
    pub edges: Vec<GraphEdge>,
}

/// First index of `l` in `nv`, or -1 when it is absent.
pub open spec fn find_label(nv: Seq<Seq<char>>, l: Seq<char>) -> int
    decreases nv.len(),
{
    if nv.len() == 0 {
        -1
    } else if nv[0] == l {
        0
    } else {
        let r = find_label(nv.skip(1), l);
        if r == -1 {
            -1
        } else {
            r + 1
        }
    }
}

pub proof fn lemma_find_label(nv: Seq<Seq<char>>, l: Seq<char>)
    ensures
        find_label(nv, l) == -1 <==> (forall|j: int| 0 <= j < nv.len() ==> nv[j] != l),
        find_label(nv, l) != -1 ==> 0 <= find_label(nv, l) < nv.len() && nv[find_label(nv, l)]
            == l && (forall|j: int| 0 <= j < find_label(nv, l) ==> nv[j] != l),
    decreases nv.len(),
{
    if nv.len() == 0 {
    } else if nv[0] == l {
        assert(!(forall|j: int| 0 <= j < nv.len() ==> nv[j] != l)) by {
            assert(nv[0] == l);
        }
    } else {
        let s = nv.skip(1);
        lemma_find_label(s, l);
        assert(forall|j: int| 0 <= j < s.len() ==> s[j] == nv[j + 1]);
        let r = find_label(s, l);
        if r == -1 {
            assert forall|j: int| 0 <= j < nv.len() implies nv[j] != l by {
                if j > 0 {
                    assert(s[j - 1] != l);
                }
            }
        } else {
            assert(find_label(nv, l) == r + 1);
            assert(nv[r + 1] == s[r]);
            assert forall|j: int| 0 <= j < r + 1 implies nv[j] != l by {
                if j > 0 {
                    assert(s[j - 1] != l);
                }
            }
            assert(!(forall|j: int| 0 <= j < nv.len() ==> nv[j] != l)) by {
                assert(nv[r + 1] == l);
            }
        }
    }
}

/// First index of an edge `from -> to` in `ev`, or -1 when there is none.
pub open spec fn find_edge(ev: Seq<(int, int, Seq<char>)>, from: int, to: int) -> int
    decreases ev.len(),
{
    if ev.len() == 0 {
        -1
    } else if ev[0].0 == from && ev[0].1 == to {
        0
    } else {
        let r = find_edge(ev.skip(1), from, to);
        if r == -1 {
            -1
        } else {
            r + 1
        }
    }
}

pub proof fn lemma_find_edge(ev: Seq<(int, int, Seq<char>)>, from: int, to: int)
    ensures
        find_edge(ev, from, to) == -1 <==> (forall|j: int|
            0 <= j < ev.len() ==> !(ev[j].0 == from && ev[j].1 == to)),
        find_edge(ev, from, to) != -1 ==> 0 <= find_edge(ev, from, to) < ev.len() && ev[find_edge(
            ev,
            from,
            to,
        )].0 == from && ev[find_edge(ev, from, to)].1 == to && (forall|j: int|
            0 <= j < find_edge(ev, from, to) ==> !(ev[j].0 == from && ev[j].1 == to)),
    decreases ev.len(),
{
    if ev.len() == 0 {
    } else if ev[0].0 == from && ev[0].1 == to {
        assert(!(forall|j: int| 0 <= j < ev.len() ==> !(ev[j].0 == from && ev[j].1 == to))) by {
            assert(ev[0].0 == from && ev[0].1 == to);
        }
    } else {
        let s = ev.skip(1);
        lemma_find_edge(s, from, to);
        assert(forall|j: int| 0 <= j < s.len() ==> s[j] == ev[j + 1]);
        let r = find_edge(s, from, to);
        if r == -1 {
            assert forall|j: int| 0 <= j < ev.len() implies !(ev[j].0 == from && ev[j].1 == to) by {
                if j > 0 {
                    assert(!(s[j - 1].0 == from && s[j - 1].1 == to));
                }
            }
        } else {
            assert(find_edge(ev, from, to) == r + 1);
            assert(ev[r + 1] == s[r]);
            assert forall|j: int| 0 <= j < r + 1 implies !(ev[j].0 == from && ev[j].1 == to) by {
                if j > 0 {
                    assert(!(s[j - 1].0 == from && s[j - 1].1 == to));
                }
            }
            assert(!(forall|j: int| 0 <= j < ev.len() ==> !(ev[j].0 == from && ev[j].1 == to))) by {
                assert(ev[r + 1].0 == from && ev[r + 1].1 == to);
            }
        }
    }
}

/// `nv` with `l` appended if absent, and the index `l` then lives at.
pub open spec fn insert_node_spec(nv: Seq<Seq<char>>, l: Seq<char>) -> (Seq<Seq<char>>, int) {
    let i = find_label(nv, l);
    if i >= 0 {
        (nv, i)
    } else {
        (nv.push(l), nv.len() as int)
    }
}

/// `ev` with the edge `from -> to` relabelled to `l`, or appended.
pub open spec fn upsert_edge_spec(ev: Seq<(int, int, Seq<char>)>, from: int, to: int, l: Seq<char>) -> Seq<
    (int, int, Seq<char>),
> {
    let i = find_edge(ev, from, to);
    if i >= 0 {
        ev.update(i, (from, to, l))
    } else {
        ev.push((from, to, l))
    }
}

/// One builder step: both endpoint labels looked up or created, then the
/// edge between them inserted or relabelled.
pub open spec fn mat_step(
    nv: Seq<Seq<char>>,
    ev: Seq<(int, int, Seq<char>)>,
    t: (Seq<char>, Seq<char>, Seq<char>),
) -> (Seq<Seq<char>>, Seq<(int, int, Seq<char>)>) {
    let (nv1, f) = insert_node_spec(nv, t.0);
    let (nv2, to) = insert_node_spec(nv1, t.1);
    (nv2, upsert_edge_spec(ev, f, to, t.2))
}

/// Materializing a whole sequence of (from, to, predicate) label triples.
pub open spec fn mat_spec(
    nv: Seq<Seq<char>>,
    ev: Seq<(int, int, Seq<char>)>,
    ts: Seq<(Seq<char>, Seq<char>, Seq<char>)>,
) -> (Seq<Seq<char>>, Seq<(int, int, Seq<char>)>)
    decreases ts.len(),
{
    if ts.len() == 0 {
        (nv, ev)
    } else {
        let (nv1, ev1) = mat_step(nv, ev, ts[0]);
        mat_spec(nv1, ev1, ts.skip(1))
    }
}

proof fn lemma_dedup_acc(
    ts: Seq<(Seq<char>, Seq<char>, Seq<char>)>,
    f: Seq<char>,
    t: Seq<char>,
    l: Seq<char>,
)
    requires
        f != t,
        forall|i: int| 0 <= i < ts.len() ==> (#[trigger] ts[i]).0 == f && ts[i].1 == t,
    ensures
        mat_spec(seq![f, t], seq![(0int, 1int, l)], ts) == (
            seq![f, t],
            seq![(0int, 1int, if ts.len() == 0 { l } else { ts.last().2 })],
        ),
    decreases ts.len(),
{
    if ts.len() > 0 {
        assert(find_label(seq![f, t], f) == 0);
        assert(find_label(seq![f, t], t) == 1) by {
            assert(seq![f, t].skip(1) =~= seq![t]);
            assert(find_label(seq![t], t) == 0);
        }
        assert(find_edge(seq![(0int, 1int, l)], 0, 1) == 0);
        assert(seq![(0int, 1int, l)].update(0, (0int, 1int, ts[0].2)) =~= seq![
            (0int, 1int, ts[0].2)]);
        assert(forall|i: int| 0 <= i < ts.skip(1).len() ==> ts.skip(1)[i] == ts[i + 1]);
        lemma_dedup_acc(ts.skip(1), f, t, ts[0].2);
        if ts.len() > 1 {
            assert(ts.skip(1).last() == ts.last());
        }
    }
}

/// Deduplication: a run of triples all joining the same ordered pair of
/// distinct labels, whatever their predicates, materializes as exactly two
/// nodes and one edge, carrying the last triple's predicate label.
pub proof fn lemma_dedup(ts: Seq<(Seq<char>, Seq<char>, Seq<char>)>, f: Seq<char>, t: Seq<char>)
    requires
        ts.len() > 0,
        f != t,
        forall|i: int| 0 <= i < ts.len() ==> (#[trigger] ts[i]).0 == f && ts[i].1 == t,
    ensures
        mat_spec(Seq::<Seq<char>>::empty(), Seq::<(int, int, Seq<char>)>::empty(), ts) == (
            seq![f, t],
            seq![(0int, 1int, ts.last().2)],
        ),
{
    assert(find_label(Seq::<Seq<char>>::empty(), f) == -1);
    assert(Seq::<Seq<char>>::empty().push(f) =~= seq![f]);
    assert(find_label(seq![f], t) == -1) by {
        assert(seq![f].skip(1) =~= Seq::<Seq<char>>::empty());
        assert(find_label(Seq::<Seq<char>>::empty(), t) == -1);
    }
    assert(seq![f].push(t) =~= seq![f, t]);
    assert(find_edge(Seq::<(int, int, Seq<char>)>::empty(), 0, 1) == -1);
    assert(Seq::<(int, int, Seq<char>)>::empty().push((0int, 1int, ts[0].2)) =~= seq![
        (0int, 1int, ts[0].2)]);
    assert(forall|i: int| 0 <= i < ts.skip(1).len() ==> ts.skip(1)[i] == ts[i + 1]);
    lemma_dedup_acc(ts.skip(1), f, t, ts[0].2);
    if ts.len() > 1 {
        assert(ts.skip(1).last() == ts.last());
    }
}

impl VizGraph {
    /// The node labels, in first-seen order.
    pub open spec fn nv(self) -> Seq<Seq<char>> {
        Seq::new(self.nodes@.len(), |i: int| self.nodes@[i]@)
    }

    /// The edges, in insertion order.
    pub open spec fn ev(self) -> Seq<(int, int, Seq<char>)> {
        Seq::new(
            self.edges@.len(),
            |i: int| (self.edges@[i].from as int, self.edges@[i].to as int, self.edges@[i].label@),
        )
    }

    /// Node labels are unique, and every edge joins valid nodes; no ordered
    /// node pair carries two edges.
    pub open spec fn wf(self) -> bool {
        &&& forall|i: int, j: int| 0 <= i < j < self.nv().len() ==> self.nv()[i] != self.nv()[j]
        &&& forall|i: int|
            0 <= i < self.ev().len() ==> 0 <= #[trigger] self.ev()[i].0 < self.nv().len() && 0
                <= self.ev()[i].1 < self.nv().len()
        &&& forall|i: int, j: int|
            0 <= i < j < self.ev().len() ==> !(self.ev()[i].0 == self.ev()[j].0 && self.ev()[i].1
                == self.ev()[j].1)
    }

    /// An empty graph.
    pub fn new() -> (r: VizGraph)
        ensures
            r.wf(),
            r.nv() =~= Seq::<Seq<char>>::empty(),
            r.ev() =~= Seq::<(int, int, Seq<char>)>::empty(),
    {
        VizGraph { nodes: Vec::new(), edges: Vec::new() }
    }

    /// Index of `label`, appending it as a fresh node when unseen.
    #[verifier::loop_isolation(false)]
    fn ensure_node(&mut self, label: &String) -> (idx: usize)
        requires
            old(self).wf(),
        ensures
            final(self).wf(),
            final(self).edges@ == old(self).edges@,
            (final(self).nv(), idx as int) == insert_node_spec(old(self).nv(), label@),
    {
        proof {
            lemma_find_label(old(self).nv(), label@);
        }
        let n = self.nodes.len();
        let mut i: usize = 0;
        while i < n
            invariant
                0 <= i <= n,
                n == self.nodes@.len(),
                forall|j: int| 0 <= j < i ==> self.nv()[j] != label@,
            decreases n - i,
        {
            if str_eq(self.nodes[i].as_str(), label.as_str()) {
                proof {
                    assert(self.nv()[i as int] == label@);
                    assert(self.nv() =~= old(self).nv());
                }
                return i;
            }
            i += 1;
        }
        self.nodes.push(label.clone());
        proof {
            assert(self.nv() =~= old(self).nv().push(label@));
            assert(self.ev() =~= old(self).ev());
        }
        n
    }

    /// Records the labelled edge `from -> to`, creating unseen endpoint
    /// nodes and overwriting the label of an already-present pair.
    #[verifier::loop_isolation(false)]
    pub fn insert_edge_labelled(&mut self, from: &String, to: &String, pred: &String)
        requires
            old(self).wf(),
        ensures
            final(self).wf(),
            (final(self).nv(), final(self).ev()) == mat_step(old(self).nv(), old(self).ev(), (from@, to@, pred@)),
    {
        let f = self.ensure_node(from);
        let ghost nv1 = self.nv();
        let t = self.ensure_node(to);
        let ghost mid = *self;
        proof {
            lemma_find_label(old(self).nv(), from@);
            lemma_find_label(nv1, to@);
            lemma_find_edge(self.ev(), f as int, t as int);
            assert(mid.ev() =~= old(self).ev());
            if find_label(old(self).nv(), from@) >= 0 {
                assert(nv1 == old(self).nv() && f as int == find_label(old(self).nv(), from@));
            } else {
                assert(nv1 == old(self).nv().push(from@) && f as int == old(self).nv().len());
            }
            if find_label(nv1, to@) >= 0 {
                assert(mid.nv() == nv1 && t as int == find_label(nv1, to@));
            } else {
                assert(mid.nv() == nv1.push(to@) && t as int == nv1.len());
            }
            assert(f < self.nodes@.len() && t < self.nodes@.len());
        }
        let n = self.edges.len();
        let mut i: usize = 0;
        while i < n
            invariant
                0 <= i <= n,
                *self == mid,
                n == self.edges@.len(),
                f < self.nodes@.len(),
                t < self.nodes@.len(),
                self.wf(),
                forall|j: int| 0 <= j < i ==> !(self.ev()[j].0 == f && self.ev()[j].1 == t),
            decreases n - i,
        {
            if self.edges[i].from == f && self.edges[i].to == t {
                proof {
                    assert(self.ev()[i as int].0 == f as int && self.ev()[i as int].1 == t as int);
                    let r = find_edge(self.ev(), f as int, t as int);
                    assert(r != -1);
                    if r < i as int {
                        assert(self.ev()[r].0 == f as int && self.ev()[r].1 == t as int);
                        assert(false);
                    }
                    if r > i as int {
                        assert(!(self.ev()[i as int].0 == f as int && self.ev()[i as int].1 == t
                            as int));
                        assert(false);
                    }
                    assert(r == i as int);
                }
                let e = GraphEdge { from: f, to: t, label: pred.clone() };
                self.edges.set(i, e);
                proof {
                    assert(self.nv() =~= mid.nv());
                    assert(self.ev() =~= mid.ev().update(i as int, (f as int, t as int, pred@)));
                    assert(forall|k: int|
                        0 <= k < self.ev().len() ==> (#[trigger] self.ev()[k]).0 == mid.ev()[k].0
                            && self.ev()[k].1 == mid.ev()[k].1);
                    assert forall|a: int, b: int| 0 <= a < b < self.ev().len() implies !(
                    self.ev()[a].0 == self.ev()[b].0 && self.ev()[a].1 == self.ev()[b].1) by {
                        assert(!(mid.ev()[a].0 == mid.ev()[b].0 && mid.ev()[a].1 == mid.ev()[b].1));
                    }
                    assert(self.wf());
                }
                return ;
            }
            i += 1;
        }
        let e = GraphEdge { from: f, to: t, label: pred.clone() };
        self.edges.push(e);
        proof {
            assert(self.nv() =~= mid.nv());
            assert(self.ev() =~= mid.ev().push((f as int, t as int, pred@)));
            assert(self.wf());
        }
    }
}

} // verus!
