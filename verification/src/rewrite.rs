//! The term rewriter: collapses full namespace IRIs into short prefixed
//! labels and strips angle brackets and quotes, so that any RDF term string
//! yields a usable display label.

use vstd::prelude::*;
use crate::strutil::{
    replace_spec, replace_all, trim_spec, trim_angles_quotes, matches_at, is_trim_char,
};

verus! {

/// The fixed table of known namespaces and the prefix label each one is
/// shortened to, longest namespace first so that no partial-prefix collision
/// can arise.
pub open spec fn prefix_pairs() -> Seq<(Seq<char>, Seq<char>)> {
    seq![
        ("http://www.w3.org/1999/02/22-rdf-syntax-ns#"@, "rdf:"@),
        ("http://www.w3.org/2000/01/rdf-schema#"@, "rdfs:"@),
        ("https://brickschema.org/schema/Brick#"@, "brick:"@),
        ("http://www.w3.org/2004/02/skos/core#"@, "skos:"@),
        ("http://www.w3.org/2001/XMLSchema#"@, "xsd:"@),
        ("http://www.w3.org/2002/07/owl#"@, "owl:"@),
        ("http://www.w3.org/ns/shacl#"@, "sh:"@),
    ]
}

/// `s` after replacing, in table order, each namespace of `ps` by its prefix.
pub open spec fn apply_prefixes(s: Seq<char>, ps: Seq<(Seq<char>, Seq<char>)>) -> Seq<char>
    decreases ps.len(),
{
    if ps.len() == 0 {
        s
    } else {
        apply_prefixes(replace_spec(s, ps[0].0, ps[0].1), ps.skip(1))
    }
}

/// The label a raw term string is displayed as: every known namespace
/// shortened to its prefix, then `<`, `>` and `"` trimmed from both ends.
pub open spec fn rewrite_spec(s: Seq<char>) -> Seq<char> {
    trim_spec(apply_prefixes(s, prefix_pairs()))
}

/// Rewrites a raw term string into its short display label.
pub fn rewrite_term(term: &str) -> (r: String)
    ensures
        r@ == rewrite_spec(term@),
{
    proof {
        reveal_strlit("http://www.w3.org/1999/02/22-rdf-syntax-ns#");
        reveal_strlit("http://www.w3.org/2000/01/rdf-schema#");
        reveal_strlit("https://brickschema.org/schema/Brick#");
        reveal_strlit("http://www.w3.org/2004/02/skos/core#");
        reveal_strlit("http://www.w3.org/2001/XMLSchema#");
        reveal_strlit("http://www.w3.org/2002/07/owl#");
        reveal_strlit("http://www.w3.org/ns/shacl#");
    }
    let s1 = replace_all(term, "http://www.w3.org/1999/02/22-rdf-syntax-ns#", "rdf:");
    let s2 = replace_all(s1.as_str(), "http://www.w3.org/2000/01/rdf-schema#", "rdfs:");
    let s3 = replace_all(s2.as_str(), "https://brickschema.org/schema/Brick#", "brick:");
    let s4 = replace_all(s3.as_str(), "http://www.w3.org/2004/02/skos/core#", "skos:");
    let s5 = replace_all(s4.as_str(), "http://www.w3.org/2001/XMLSchema#", "xsd:");
    let s6 = replace_all(s5.as_str(), "http://www.w3.org/2002/07/owl#", "owl:");
    let s7 = replace_all(s6.as_str(), "http://www.w3.org/ns/shacl#", "sh:");
    let r = trim_angles_quotes(s7.as_str());
    proof {
        let ps = prefix_pairs();
        assert(apply_prefixes(s7@, ps.skip(7)) == s7@);
        assert(ps.skip(6)[0] == ps[6] && ps.skip(6).skip(1) =~= ps.skip(7));
        assert(apply_prefixes(s6@, ps.skip(6)) == s7@);
        assert(ps.skip(5)[0] == ps[5] && ps.skip(5).skip(1) =~= ps.skip(6));
        assert(apply_prefixes(s5@, ps.skip(5)) == s7@);
        assert(ps.skip(4)[0] == ps[4] && ps.skip(4).skip(1) =~= ps.skip(5));
        assert(apply_prefixes(s4@, ps.skip(4)) == s7@);
        assert(ps.skip(3)[0] == ps[3] && ps.skip(3).skip(1) =~= ps.skip(4));
        assert(apply_prefixes(s3@, ps.skip(3)) == s7@);
        assert(ps.skip(2)[0] == ps[2] && ps.skip(2).skip(1) =~= ps.skip(3));
        assert(apply_prefixes(s2@, ps.skip(2)) == s7@);
        assert(ps.skip(1)[0] == ps[1] && ps.skip(1).skip(1) =~= ps.skip(2));
        assert(apply_prefixes(s1@, ps.skip(1)) == s7@);
        assert(ps.skip(0) =~= ps);
        assert(apply_prefixes(term@, ps) == s7@);
    }
    r
}

/// True when some occurrence of `pat` lies in `s`.
pub open spec fn contains_pat(s: Seq<char>, pat: Seq<char>) -> bool {
    exists|i: int| matches_at(s, pat, i)
}

/// A label already in short form: no known namespace occurs in it, and it
/// neither starts nor ends with a trimmed character.
pub open spec fn in_short_form(s: Seq<char>) -> bool {
    &&& forall|k: int|
        0 <= k < prefix_pairs().len() ==> !contains_pat(s, #[trigger] prefix_pairs()[k].0)
    &&& s.len() > 0 ==> !is_trim_char(s[0]) && !is_trim_char(s[s.len() - 1])
}

proof fn lemma_replace_noop(s: Seq<char>, pat: Seq<char>, to: Seq<char>)
    requires
        !contains_pat(s, pat),
    ensures
        replace_spec(s, pat, to) == s,
    decreases s.len(),
{
    if pat.len() == 0 {
        assert(s.subrange(0, 0) =~= pat);
        assert(matches_at(s, pat, 0));
    } else if s.len() == 0 {
    } else {
        assert(!matches_at(s, pat, 0));
        assert forall|i: int| !matches_at(s.skip(1), pat, i) by {
            if matches_at(s.skip(1), pat, i) {
                assert(s.subrange(i + 1, i + 1 + pat.len() as int) =~= s.skip(1).subrange(
                    i,
                    i + pat.len() as int,
                ));
                assert(matches_at(s, pat, i + 1));
            }
        }
        lemma_replace_noop(s.skip(1), pat, to);
        assert(seq![s[0]] + s.skip(1) =~= s);
    }
}

proof fn lemma_apply_prefixes_noop(s: Seq<char>, ps: Seq<(Seq<char>, Seq<char>)>)
    requires
        forall|k: int| 0 <= k < ps.len() ==> !contains_pat(s, #[trigger] ps[k].0),
    ensures
        apply_prefixes(s, ps) == s,
    decreases ps.len(),
{
    if ps.len() > 0 {
        lemma_replace_noop(s, ps[0].0, ps[0].1);
        assert(forall|k: int| 0 <= k < ps.skip(1).len() ==> ps.skip(1)[k] == ps[k + 1]);
        lemma_apply_prefixes_noop(s, ps.skip(1));
    }
}

/// Rewriting is idempotent: a label already in short form — one in which no
/// known namespace remains and whose ends carry no trimmed decoration — is
/// left exactly as it is.
pub proof fn lemma_rewrite_noop(s: Seq<char>)
    requires
        in_short_form(s),
    ensures
        rewrite_spec(s) == s,
{
    lemma_apply_prefixes_noop(s, prefix_pairs());
}

} // verus!
