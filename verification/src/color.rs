//! The color resolver: maps a class term to a fill color by testing it, in
//! rule order, against the caller-supplied class-color rules with transitive
//! subclass/equivalence reasoning; the first matching rule wins, and the
//! default is white. The reasoning itself is the ontology store's job: this
//! library phrases one ASK query per rule and an oracle answers it.

use vstd::prelude::*;
use crate::format::VizError;
use crate::render::pairs_view;
use crate::strutil::str_eq;

verus! {

/// Answers the subclass/equivalence ASK queries the resolver phrases; the
/// host backs this with its ontology store. `spec_entails` gives an
/// implementation's answers a name for the contracts to speak of; it is
/// unspecified until an implementation defines it, and `entails` must return
/// exactly it.
pub trait SubclassOracle {
    open spec fn spec_entails(&self, q: Seq<char>) -> bool {
        arbitrary()
    }

    fn entails(&self, query: &str) -> (r: Result<bool, VizError>)
        ensures
            r matches Ok(b) ==> b == self.spec_entails(query@),
    ;
}

/// An oracle backed by a plain table: a query is entailed exactly when its
/// text stands in the table. With an empty table nothing is entailed.
pub struct TableOracle {
    pub yes: Vec<String>,
}

impl SubclassOracle for TableOracle {
    open spec fn spec_entails(&self, q: Seq<char>) -> bool {
        exists|i: int| 0 <= i < self.yes@.len() && self.yes@[i]@ == q
    }

    #[verifier::loop_isolation(false)]
    fn entails(&self, query: &str) -> (r: Result<bool, VizError>) {
        let n = self.yes.len();
        let mut i: usize = 0;
        while i < n
            invariant
                0 <= i <= n,
                n == self.yes@.len(),
                forall|j: int| 0 <= j < i ==> self.yes@[j]@ != query@,
            decreases n - i,
        {
            if str_eq(self.yes[i].as_str(), query) {
                proof {
                    assert(self.yes@[i as int]@ == query@);
                }
                return Ok(true);
            }
            i += 1;
        }
        Ok(false)
    }
}

/// The fill color used when no rule matches.
pub open spec fn default_color() -> Seq<char> {
    "#ffffff"@
}

/// The ASK query text asking whether `node` reaches `class` by zero or more
/// `rdfs:subClassOf` or `owl:equivalentClass` steps.
pub open spec fn subclass_query_spec(node: Seq<char>, class: Seq<char>) -> Seq<char> {
    "PREFIX owl: <http://www.w3.org/2002/07/owl#> PREFIX rdfs: <http://www.w3.org/2000/01/rdf-schema#> ASK { "@
        + node + " (rdfs:subClassOf|owl:equivalentClass)* <"@ + class + "> }"@
}

/// Builds the subclass/equivalence ASK query for a raw node term string and
/// a rule's class identifier.
pub fn build_subclass_query(node: &str, class: &str) -> (r: String)
    ensures
        r@ == subclass_query_spec(node@, class@),
{
    let mut q = String::new();
    q.append(
        "PREFIX owl: <http://www.w3.org/2002/07/owl#> PREFIX rdfs: <http://www.w3.org/2000/01/rdf-schema#> ASK { ",
    );
    q.append(node);
    q.append(" (rdfs:subClassOf|owl:equivalentClass)* <");
    q.append(class);
    q.append("> }");
    proof {
        assert(q@ =~= subclass_query_spec(node@, class@));
    }
    q
}

/// The color the rule list resolves `node` to: the color of the first rule
/// whose class the node reaches, or white when none matches.
pub open spec fn resolve_color_spec<O: SubclassOracle>(
    o: O,
    rules: Seq<(Seq<char>, Seq<char>)>,
    node: Seq<char>,
) -> Seq<char>
    decreases rules.len(),
{
    if rules.len() == 0 {
        default_color()
    } else if o.spec_entails(subclass_query_spec(node, rules[0].0)) {
        rules[0].1
    } else {
        resolve_color_spec(o, rules.skip(1), node)
    }
}

/// Resolves the fill color of the raw term `node` against the rules, one
/// oracle round-trip per rule until the first match.
#[verifier::loop_isolation(false)]
pub fn resolve_color<O: SubclassOracle>(
    oracle: &O,
    rules: &Vec<(String, String)>,
    node: &str,
) -> (r: Result<String, VizError>)
    ensures
        r matches Ok(c) ==> c@ == resolve_color_spec(*oracle, pairs_view(rules@), node@),
        rules@.len() == 0 ==> (r matches Ok(c) && c@ == default_color()),
{
    let n = rules.len();
    let mut i: usize = 0;
    proof {
        assert(pairs_view(rules@).skip(0) =~= pairs_view(rules@));
    }
    while i < n
        invariant
            0 <= i <= n,
            n == rules@.len(),
            resolve_color_spec(*oracle, pairs_view(rules@), node@) == resolve_color_spec(
                *oracle,
                pairs_view(rules@).skip(i as int),
                node@,
            ),
        decreases n - i,
    {
        let q = build_subclass_query(node, rules[i].0.as_str());
        let hit = match oracle.entails(q.as_str()) {
            Ok(b) => b,
            Err(e) => { return Err(e) },
        };
        proof {
            assert(pairs_view(rules@).skip(i as int)[0] == (rules@[i as int].0@, rules@[
                i as int].1@));
            assert(pairs_view(rules@).skip(i as int).skip(1) =~= pairs_view(rules@).skip(i + 1));
        }
        if hit {
            return Ok(rules[i].1.clone());
        }
        i += 1;
    }
    proof {
        assert(pairs_view(rules@).skip(n as int) =~= Seq::<(Seq<char>, Seq<char>)>::empty());
    }
    Ok("#ffffff".to_owned())
}

/// Color precedence: when the first rule's class is reached by the node, the
/// resolved color is that first rule's, whatever the later rules say.
pub proof fn lemma_color_precedence<O: SubclassOracle>(
    o: O,
    rules: Seq<(Seq<char>, Seq<char>)>,
    node: Seq<char>,
)
    requires
        rules.len() > 0,
        o.spec_entails(subclass_query_spec(node, rules[0].0)),
    ensures
        resolve_color_spec(o, rules, node) == rules[0].1,
{
}

/// Color default: when no rule matches the node — in particular when the
/// rule list is empty — the resolved color is white.
pub proof fn lemma_color_default<O: SubclassOracle>(
    o: O,
    rules: Seq<(Seq<char>, Seq<char>)>,
    node: Seq<char>,
)
    requires
        forall|k: int|
            0 <= k < rules.len() ==> !o.spec_entails(
                subclass_query_spec(node, #[trigger] rules[k].0),
            ),
    ensures
        resolve_color_spec(o, rules, node) == default_color(),
    decreases rules.len(),
{
    if rules.len() > 0 {
        assert(forall|k: int| 0 <= k < rules.skip(1).len() ==> rules.skip(1)[k] == rules[k + 1]);
        lemma_color_default(o, rules.skip(1), node);
    }
}

} // verus!
