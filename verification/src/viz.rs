//! The visualizer: takes the structural edge rows the host's store returned,
//! applies the filter, rewrites terms, resolves colors through the
//! subclass oracle, materializes the deduplicated graph and serializes it.

use vstd::prelude::*;
use crate::format::VizError;
use crate::graph::{VizGraph, mat_spec, find_label, lemma_find_label};
use crate::render::{pairs_view, render_d2, render_dot, d2_spec, dot_spec};
use crate::rewrite::{rewrite_term, rewrite_spec};
use crate::color::{SubclassOracle, resolve_color_spec, resolve_color, default_color};

verus! {

/// A caller-supplied pure predicate over the raw, unrewritten term strings
/// of a candidate edge; a row it rejects never reaches the graph.
/// `spec_accept` gives an implementation's verdicts a name for the
/// contracts to speak of; it is unspecified until an implementation defines
/// it, and `accept` must return exactly it.
pub trait EdgeFilter {
    open spec fn spec_accept(&self, from: Seq<char>, to: Seq<char>, edge: Seq<char>) -> bool {
        arbitrary()
    }

    fn accept(&self, from: &str, to: &str, edge: &str) -> (r: bool)
        ensures
            r == self.spec_accept(from@, to@, edge@),
    ;
}

/// The filter used where none is configured: admits every row.
pub struct AcceptAll;

impl EdgeFilter for AcceptAll {
    open spec fn spec_accept(&self, from: Seq<char>, to: Seq<char>, edge: Seq<char>) -> bool {
        true
    }

    fn accept(&self, from: &str, to: &str, edge: &str) -> (r: bool) {
        true
    }
}

/// The text of the structural class-edge query: it selects all
/// `(from, p, to)` such that an instance of class `from` relates by `p` to
/// an instance of class `to`, both classes reachable from `owl:Class` or
/// `rdfs:Class`.
pub open spec fn edge_query_spec() -> Seq<char> {
    "PREFIX rdf: <http://www.w3.org/1999/02/22-rdf-syntax-ns#> PREFIX owl: <http://www.w3.org/2002/07/owl#> PREFIX rdfs: <http://www.w3.org/2000/01/rdf-schema#> SELECT ?from ?p ?to WHERE { ?x rdf:type ?from . ?x ?p ?y . ?y rdf:type ?to . { ?to rdf:type+ owl:Class } UNION { ?to rdf:type+ rdfs:Class } { ?from rdf:type+ owl:Class } UNION { ?from rdf:type+ rdfs:Class } }"@
}

/// The structural class-edge query, exactly as `edge_query_spec` states
/// it. The host runs it over the union of its background and data graphs
/// and hands the rows to `create_graph`.
pub fn edge_query_text() -> (r: &'static str)
    ensures
        r@ == edge_query_spec(),
{
    "PREFIX rdf: <http://www.w3.org/1999/02/22-rdf-syntax-ns#> PREFIX owl: <http://www.w3.org/2002/07/owl#> PREFIX rdfs: <http://www.w3.org/2000/01/rdf-schema#> SELECT ?from ?p ?to WHERE { ?x rdf:type ?from . ?x ?p ?y . ?y rdf:type ?to . { ?to rdf:type+ owl:Class } UNION { ?to rdf:type+ rdfs:Class } { ?from rdf:type+ owl:Class } UNION { ?from rdf:type+ rdfs:Class } }"
}

/// The filter's verdict on one row, over the raw term strings; every row
/// is admitted where no filter is configured. A row is (from, predicate,
/// to); the filter sees (from, to, predicate).
pub open spec fn verdict<F: EdgeFilter>(
    filter: Option<F>,
    row: (Seq<char>, Seq<char>, Seq<char>),
) -> bool {
    match filter {
        Option::None => true,
        Option::Some(f) => f.spec_accept(row.0, row.2, row.1),
    }
}

/// The filter's verdicts on all rows, in row order.
pub open spec fn verdicts<F: EdgeFilter>(
    filter: Option<F>,
    rows: Seq<(Seq<char>, Seq<char>, Seq<char>)>,
) -> Seq<bool> {
    Seq::new(rows.len(), |i: int| verdict(filter, rows[i]))
}

/// The view of a vector of string triples.
pub open spec fn rows_view(rows: Seq<(String, String, String)>) -> Seq<
    (Seq<char>, Seq<char>, Seq<char>),
> {
    Seq::new(rows.len(), |i: int| (rows[i].0@, rows[i].1@, rows[i].2@))
}

/// The keys of a color table or rule list.
pub open spec fn keys_of(cv: Seq<(Seq<char>, Seq<char>)>) -> Seq<Seq<char>> {
    Seq::new(cv.len(), |i: int| cv[i].0)
}

/// The rule list's view, where one is configured.
pub open spec fn rules_opt_view(m: Option<Vec<(String, String)>>) -> Option<
    Seq<(Seq<char>, Seq<char>)>,
> {
    match m {
        Option::None => Option::None,
        Option::Some(v) => Option::Some(pairs_view(v@)),
    }
}

/// The color `raw` resolves to under an optional rule list.
pub open spec fn resolve_opt<O: SubclassOracle>(
    o: O,
    rules: Option<Seq<(Seq<char>, Seq<char>)>>,
    raw: Seq<char>,
) -> Seq<char> {
    match rules {
        Option::None => default_color(),
        Option::Some(rs) => resolve_color_spec(o, rs, raw),
    }
}

/// The color table after seeing the raw term `raw`: its rewritten label is
/// added with its resolved color, at most once, first sighting wins.
pub open spec fn add_color<O: SubclassOracle>(
    o: O,
    rules: Option<Seq<(Seq<char>, Seq<char>)>>,
    cv: Seq<(Seq<char>, Seq<char>)>,
    raw: Seq<char>,
) -> Seq<(Seq<char>, Seq<char>)> {
    let lbl = rewrite_spec(raw);
    if find_label(keys_of(cv), lbl) >= 0 {
        cv
    } else {
        cv.push((lbl, resolve_opt(o, rules, raw)))
    }
}

/// The color table accumulated over the admitted rows, the `from` term of a
/// row before its `to` term.
pub open spec fn colors_fold<O: SubclassOracle>(
    o: O,
    rules: Option<Seq<(Seq<char>, Seq<char>)>>,
    cv: Seq<(Seq<char>, Seq<char>)>,
    rows: Seq<(Seq<char>, Seq<char>, Seq<char>)>,
    kept: Seq<bool>,
    i: int,
) -> Seq<(Seq<char>, Seq<char>)>
    decreases rows.len() - i,
{
    if i < 0 || i >= rows.len() {
        cv
    } else {
        let cv1 = if kept[i] {
            add_color(o, rules, add_color(o, rules, cv, rows[i].0), rows[i].2)
        } else {
            cv
        };
        colors_fold(o, rules, cv1, rows, kept, i + 1)
    }
}

/// The rewritten (from, to, predicate) label triples of the admitted rows;
/// a row is (from, predicate, to).
pub open spec fn kept_triples(
    rows: Seq<(Seq<char>, Seq<char>, Seq<char>)>,
    kept: Seq<bool>,
    i: int,
) -> Seq<(Seq<char>, Seq<char>, Seq<char>)>
    decreases rows.len() - i,
{
    if i < 0 || i >= rows.len() {
        Seq::<(Seq<char>, Seq<char>, Seq<char>)>::empty()
    } else {
        let rest = kept_triples(rows, kept, i + 1);
        if kept[i] {
            seq![(rewrite_spec(rows[i].0), rewrite_spec(rows[i].2), rewrite_spec(rows[i].1))] + rest
        } else {
            rest
        }
    }
}

/// Filter correctness, the exclusion half: a row the filter rejected
/// leaves no trace — when every row is rejected, no triple is admitted and
/// the materialized graph is empty.
pub proof fn lemma_filter_rejects_all(
    rows: Seq<(Seq<char>, Seq<char>, Seq<char>)>,
    kept: Seq<bool>,
    i: int,
)
    requires
        kept.len() == rows.len(),
        forall|j: int| 0 <= j < kept.len() ==> !kept[j],
    ensures
        kept_triples(rows, kept, i) == Seq::<(Seq<char>, Seq<char>, Seq<char>)>::empty(),
    decreases rows.len() - i,
{
    if 0 <= i < rows.len() {
        lemma_filter_rejects_all(rows, kept, i + 1);
    }
}

/// Filter correctness, the admission half: with every row admitted, each
/// row contributes exactly one triple, its terms rewritten, in row order.
pub proof fn lemma_filter_admits_all(
    rows: Seq<(Seq<char>, Seq<char>, Seq<char>)>,
    kept: Seq<bool>,
    i: int,
)
    requires
        kept.len() == rows.len(),
        forall|j: int| 0 <= j < kept.len() ==> kept[j],
        0 <= i <= rows.len(),
    ensures
        kept_triples(rows, kept, i).len() == rows.len() - i,
        forall|j: int|
            i <= j < rows.len() ==> kept_triples(rows, kept, i)[j - i] == (
                rewrite_spec(rows[j].0),
                rewrite_spec(rows[j].2),
                rewrite_spec(rows[j].1),
            ),
    decreases rows.len() - i,
{
    if i < rows.len() {
        lemma_filter_admits_all(rows, kept, i + 1);
    }
}

/// Whether `l` is already a key of the color table.
#[verifier::loop_isolation(false)]
fn contains_color(colors: &Vec<(String, String)>, l: &String) -> (r: bool)
    ensures
        r == (find_label(keys_of(pairs_view(colors@)), l@) >= 0),
{
    proof {
        lemma_find_label(keys_of(pairs_view(colors@)), l@);
    }
    let n = colors.len();
    let mut i: usize = 0;
    while i < n
        invariant
            0 <= i <= n,
            n == colors@.len(),
            forall|j: int| 0 <= j < i ==> keys_of(pairs_view(colors@))[j] != l@,
        decreases n - i,
    {
        if crate::strutil::str_eq(colors[i].0.as_str(), l.as_str()) {
            proof {
                assert(keys_of(pairs_view(colors@))[i as int] == l@);
            }
            return true;
        }
        i += 1;
    }
    false
}

/// The extraction pipeline's working state, rebuilt from scratch by every
/// `create_graph`; the RDF dataset itself lives with the host's store.
pub struct Visualizer<F: EdgeFilter> {
    pub g: VizGraph,
    pub filter: Option<F>,
    pub class_color_map: Option<Vec<(String, String)>>,
    pub colors: Vec<(String, String)>,
}

impl<F: EdgeFilter> Visualizer<F> {
    /// The graph is well formed and the color table never holds a label
    /// twice.
    pub open spec fn wf(self) -> bool {
        &&& self.g.wf()
        &&& forall|i: int, j: int|
            0 <= i < j < self.colors@.len() ==> keys_of(pairs_view(self.colors@))[i] != keys_of(
                pairs_view(self.colors@),
            )[j]
    }

    /// A fresh visualizer: empty working state, no filter, no rules.
    pub fn new() -> (r: Result<Self, VizError>)
        ensures
            r matches Ok(v) ==> v.wf() && v.g.nv() =~= Seq::<Seq<char>>::empty() && v.g.ev() =~= Seq::<
                (int, int, Seq<char>),
            >::empty() && v.colors@.len() == 0 && v.filter is None && v.class_color_map is None,
            r is Ok,
    {
        Ok(
            Visualizer {
                g: VizGraph::new(),
                filter: None,
                class_color_map: None,
                colors: Vec::new(),
            },
        )
    }

    /// Clears the working state.
    fn reset(&mut self)
        ensures
            final(self).wf(),
            final(self).g.nv() =~= Seq::<Seq<char>>::empty(),
            final(self).g.ev() =~= Seq::<(int, int, Seq<char>)>::empty(),
            final(self).colors@.len() == 0,
            final(self).filter == old(self).filter,
            final(self).class_color_map == old(self).class_color_map,
    {
        self.g = VizGraph::new();
        self.colors = Vec::new();
    }

    /// Installs the edge filter.
    pub fn add_filter(&mut self, filter: F)
        ensures
            final(self).filter == Some(filter),
            final(self).g == old(self).g,
            final(self).colors == old(self).colors,
            final(self).class_color_map == old(self).class_color_map,
    {
        self.filter = Some(filter);
    }

    /// Installs the ordered class-color rule list.
    pub fn add_class_color_map(&mut self, class_color_map: Vec<(String, String)>)
        ensures
            final(self).class_color_map == Some(class_color_map),
            final(self).g == old(self).g,
            final(self).colors == old(self).colors,
            final(self).filter == old(self).filter,
    {
        self.class_color_map = Some(class_color_map);
    }

    /// Serializes the built graph and color table as D2 text.
    pub fn graph_to_d2lang(&self) -> (r: Result<String, VizError>)
        requires
            self.wf(),
        ensures
            r matches Ok(s) && s@ == d2_spec(self.g.nv(), self.g.ev(), pairs_view(self.colors@)),
    {
        Ok(render_d2(&self.g, &self.colors))
    }

    /// Resolves the color of a raw term against the configured rules; white
    /// when none are configured.
    fn to_color<O: SubclassOracle>(&self, oracle: &O, raw: &str) -> (r: Result<String, VizError>)
        ensures
            r matches Ok(c) ==> c@ == resolve_opt(
                *oracle,
                rules_opt_view(self.class_color_map),
                raw@,
            ),
            self.class_color_map is None ==> (r matches Ok(c) && c@ == default_color()),
            (self.class_color_map matches Some(m) && m@.len() == 0) ==> r is Ok,
    {
        match &self.class_color_map {
            None => Ok("#ffffff".to_owned()),
            Some(rules) => resolve_color(oracle, rules, raw),
        }
    }

    /// Evaluates the filter on every row's raw strings, in row order;
    /// all-true where no filter is configured.
    #[verifier::loop_isolation(false)]
    fn compute_kept(&self, rows: &Vec<(String, String, String)>) -> (kept: Vec<bool>)
        ensures
            kept@ =~= verdicts(self.filter, rows_view(rows@)),
            kept@.len() == rows@.len(),
    {
        let n = rows.len();
        let mut kept: Vec<bool> = Vec::new();
        let mut i: usize = 0;
        while i < n
            invariant
                0 <= i <= n,
                n == rows@.len(),
                kept@.len() == i,
                forall|j: int| 0 <= j < i ==> kept@[j] == verdict(self.filter, rows_view(rows@)[j]),
            decreases n - i,
        {
            let keep = match &self.filter {
                None => true,
                Some(f) => f.accept(
                    rows[i].0.as_str(),
                    rows[i].2.as_str(),
                    rows[i].1.as_str(),
                ),
            };
            proof {
                assert(rows_view(rows@)[i as int] == (rows@[i as int].0@, rows@[i as int].1@,
                    rows@[i as int].2@));
                assert(keep == verdict(self.filter, rows_view(rows@)[i as int]));
            }
            kept.push(keep);
            i += 1;
        }
        proof {
            assert(kept@ =~= verdicts(self.filter, rows_view(rows@)));
        }
        kept
    }

    /// Builds the graph and color table from the query rows and the filter
    /// verdicts: admitted rows are rewritten, colored at first sighting, and
    /// materialized with node and edge deduplication.
    #[verifier::loop_isolation(false)]
    pub fn build_from_rows<O: SubclassOracle>(
        &mut self,
        rows: &Vec<(String, String, String)>,
        kept: &Vec<bool>,
        oracle: &O,
    ) -> (r: Result<(), VizError>)
        requires
            old(self).wf(),
            kept@.len() == rows@.len(),
            old(self).g.nv() =~= Seq::<Seq<char>>::empty(),
            old(self).g.ev() =~= Seq::<(int, int, Seq<char>)>::empty(),
            old(self).colors@.len() == 0,
        ensures
            final(self).wf(),
            final(self).filter == old(self).filter,
            final(self).class_color_map == old(self).class_color_map,
            r matches Ok(u) ==> (final(self).g.nv(), final(self).g.ev()) == mat_spec(
                Seq::<Seq<char>>::empty(),
                Seq::<(int, int, Seq<char>)>::empty(),
                kept_triples(rows_view(rows@), kept@, 0),
            ) && pairs_view(final(self).colors@) == colors_fold(
                *oracle,
                rules_opt_view(old(self).class_color_map),
                Seq::<(Seq<char>, Seq<char>)>::empty(),
                rows_view(rows@),
                kept@,
                0,
            ),
            old(self).class_color_map is None ==> r is Ok,
            (old(self).class_color_map matches Some(m) && m@.len() == 0) ==> r is Ok,
    {
        let ghost o = *oracle;
        let ghost rules = rules_opt_view(self.class_color_map);
        let ghost rv = rows_view(rows@);
        let mut pending: Vec<(String, String, String)> = Vec::new();
        let n = rows.len();
        let mut i: usize = 0;
        proof {
            assert(pairs_view(self.colors@) =~= Seq::<(Seq<char>, Seq<char>)>::empty());
        }
        while i < n
            invariant
                0 <= i <= n,
                n == rows@.len(),
                kept@.len() == n,
                self.g == old(self).g,
                self.filter == old(self).filter,
                self.class_color_map == old(self).class_color_map,
                self.wf(),
                rows_view(pending@) + kept_triples(rv, kept@, i as int) =~= kept_triples(
                    rv,
                    kept@,
                    0,
                ),
                colors_fold(o, rules, pairs_view(self.colors@), rv, kept@, i as int)
                    == colors_fold(
                    o,
                    rules,
                    Seq::<(Seq<char>, Seq<char>)>::empty(),
                    rv,
                    kept@,
                    0,
                ),
            decreases n - i,
        {
            if kept[i] {
                let ghost cv0 = pairs_view(self.colors@);
                let f = rewrite_term(rows[i].0.as_str());
                let t = rewrite_term(rows[i].2.as_str());
                let e = rewrite_term(rows[i].1.as_str());
                if !contains_color(&self.colors, &f) {
                    let c = match self.to_color(oracle, rows[i].0.as_str()) {
                        Ok(c) => c,
                        Err(err) => { return Err(err) },
                    };
                    proof {
                        lemma_find_label(keys_of(pairs_view(self.colors@)), f@);
                    }
                    self.colors.push((f.clone(), c));
                    proof {
                        assert(pairs_view(self.colors@) =~= cv0.push((f@, resolve_opt(
                            o,
                            rules,
                            rv[i as int].0,
                        ))));
                        assert(keys_of(pairs_view(self.colors@)) =~= keys_of(cv0).push(f@));
                    }
                }
                proof {
                    assert(pairs_view(self.colors@) =~= add_color(o, rules, cv0, rv[i as int].0));
                }
                let ghost cv1 = pairs_view(self.colors@);
                if !contains_color(&self.colors, &t) {
                    let c = match self.to_color(oracle, rows[i].2.as_str()) {
                        Ok(c) => c,
                        Err(err) => { return Err(err) },
                    };
                    proof {
                        lemma_find_label(keys_of(pairs_view(self.colors@)), t@);
                    }
                    self.colors.push((t.clone(), c));
                    proof {
                        assert(pairs_view(self.colors@) =~= cv1.push((t@, resolve_opt(
                            o,
                            rules,
                            rv[i as int].2,
                        ))));
                        assert(keys_of(pairs_view(self.colors@)) =~= keys_of(cv1).push(t@));
                    }
                }
                proof {
                    assert(pairs_view(self.colors@) =~= add_color(o, rules, cv1, rv[i as int].2));
                }
                let ghost p0 = rows_view(pending@);
                pending.push((f, t, e));
                proof {
                    assert(rows_view(pending@) =~= p0 + seq![(rewrite_spec(rv[i as int].0),
                        rewrite_spec(rv[i as int].2), rewrite_spec(rv[i as int].1))]);
                    assert(rows_view(pending@) + kept_triples(rv, kept@, i + 1) =~= p0
                        + kept_triples(rv, kept@, i as int));
                }
            } else {
                proof {
                    assert(kept_triples(rv, kept@, i as int) == kept_triples(rv, kept@, i + 1));
                }
            }
            i += 1;
        }
        let ghost ts = rows_view(pending@);
        proof {
            assert(kept_triples(rv, kept@, n as int)
                =~= Seq::<(Seq<char>, Seq<char>, Seq<char>)>::empty());
            assert(ts =~= kept_triples(rv, kept@, 0));
            assert(colors_fold(o, rules, pairs_view(self.colors@), rv, kept@, n as int)
                == pairs_view(self.colors@));
            assert(ts.skip(0) =~= ts);
            assert(self.g.nv() =~= Seq::<Seq<char>>::empty());
            assert(self.g.ev() =~= Seq::<(int, int, Seq<char>)>::empty());
            assert(mat_spec(self.g.nv(), self.g.ev(), ts.skip(0)) == mat_spec(
                Seq::<Seq<char>>::empty(),
                Seq::<(int, int, Seq<char>)>::empty(),
                ts,
            ));
        }
        let ghost colors_done = pairs_view(self.colors@);
        let m = pending.len();
        let mut j: usize = 0;
        while j < m
            invariant
                0 <= j <= m,
                m == pending@.len(),
                self.filter == old(self).filter,
                self.class_color_map == old(self).class_color_map,
                pairs_view(self.colors@) == colors_done,
                colors_fold(o, rules, colors_done, rv, kept@, n as int) == colors_fold(
                    o,
                    rules,
                    Seq::<(Seq<char>, Seq<char>)>::empty(),
                    rv,
                    kept@,
                    0,
                ),
                self.wf(),
                mat_spec(self.g.nv(), self.g.ev(), ts.skip(j as int)) == mat_spec(
                    Seq::<Seq<char>>::empty(),
                    Seq::<(int, int, Seq<char>)>::empty(),
                    ts,
                ),
            decreases m - j,
        {
            self.g.insert_edge_labelled(&pending[j].0, &pending[j].1, &pending[j].2);
            proof {
                assert(ts.skip(j as int)[0] == ts[j as int]);
                assert(ts[j as int] == (pending@[j as int].0@, pending@[j as int].1@, pending@[
                    j as int].2@));
                assert(ts.skip(j as int).skip(1) =~= ts.skip(j + 1));
            }
            j += 1;
        }
        proof {
            assert(ts.skip(m as int) =~= Seq::<(Seq<char>, Seq<char>, Seq<char>)>::empty());
        }
        Ok(())
    }

    /// Runs the extraction on the rows the host's edge query returned:
    /// resets the working state, keeps exactly the rows the filter admits,
    /// rewrites, colors through the oracle, deduplicates, and returns the
    /// DOT text. The result is a function of the rows, the filter, the rule
    /// list and the oracle alone: equal inputs give byte-equal text.
    pub fn create_graph<O: SubclassOracle>(
        &mut self,
        rows: &Vec<(String, String, String)>,
        oracle: &O,
    ) -> (r: Result<String, VizError>)
        requires
            old(self).wf(),
        ensures
            final(self).wf(),
            final(self).filter == old(self).filter,
            final(self).class_color_map == old(self).class_color_map,
            old(self).class_color_map is None ==> r is Ok,
            (old(self).class_color_map matches Some(m) && m@.len() == 0) ==> r is Ok,
            r matches Ok(text) ==> ({
                let kept = verdicts(old(self).filter, rows_view(rows@));
                &&& (final(self).g.nv(), final(self).g.ev()) == mat_spec(
                    Seq::<Seq<char>>::empty(),
                    Seq::<(int, int, Seq<char>)>::empty(),
                    kept_triples(rows_view(rows@), kept, 0),
                )
                &&& pairs_view(final(self).colors@) == colors_fold(
                    *oracle,
                    rules_opt_view(old(self).class_color_map),
                    Seq::<(Seq<char>, Seq<char>)>::empty(),
                    rows_view(rows@),
                    kept,
                    0,
                )
                &&& text@ == dot_spec(
                    final(self).g.nv(),
                    final(self).g.ev(),
                    pairs_view(final(self).colors@),
                )
            }),
    {
        self.reset();
        let kept = self.compute_kept(rows);
        match self.build_from_rows(rows, &kept, oracle) {
            Ok(u) => u,
            Err(e) => { return Err(e) },
        }
        let text = render_dot(&self.g, &self.colors);
        proof {
            assert(kept@ =~= verdicts(old(self).filter, rows_view(rows@)));
        }
        Ok(text)
    }
}

} // verus!
