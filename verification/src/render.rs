//! The two serializers: Graphviz DOT (numbered node statements, label
//! attributes, and a textual fillcolor substitution per colored node) and the
//! D2 notation (quoted edge lines and `.style.fill` lines). Both are pure
//! functions of the built graph and the color table, emitting in insertion
//! order so equal inputs give byte-equal text.

use vstd::prelude::*;
use crate::strutil::{replace_spec, replace_all};
use crate::graph::VizGraph;

verus! {

/// The decimal digit character for `d`.
pub open spec fn digit_char(d: int) -> char {
    if d == 0 {
        '0'
    } else if d == 1 {
        '1'
    } else if d == 2 {
        '2'
    } else if d == 3 {
        '3'
    } else if d == 4 {
        '4'
    } else if d == 5 {
        '5'
    } else if d == 6 {
        '6'
    } else if d == 7 {
        '7'
    } else if d == 8 {
        '8'
    } else {
        '9'
    }
}

/// The decimal rendering of `n`.
pub open spec fn dec_spec(n: nat) -> Seq<char>
    decreases n,
{
    if n < 10 {
        seq![digit_char(n as int)]
    } else {
        dec_spec(n / 10) + seq![digit_char((n % 10) as int)]
    }
}

fn digit_str(d: usize) -> (r: &'static str)
    requires
        d < 10,
    ensures
        r@ == seq![digit_char(d as int)],
{
    proof {
        reveal_strlit("0");
        reveal_strlit("1");
        reveal_strlit("2");
        reveal_strlit("3");
        reveal_strlit("4");
        reveal_strlit("5");
        reveal_strlit("6");
        reveal_strlit("7");
        reveal_strlit("8");
        reveal_strlit("9");
    }
    let r: &'static str = if d == 0 {
        "0"
    } else if d == 1 {
        "1"
    } else if d == 2 {
        "2"
    } else if d == 3 {
        "3"
    } else if d == 4 {
        "4"
    } else if d == 5 {
        "5"
    } else if d == 6 {
        "6"
    } else if d == 7 {
        "7"
    } else if d == 8 {
        "8"
    } else {
        "9"
    };
    proof {
        assert(r@ =~= seq![digit_char(d as int)]);
    }
    r
}

/// Renders `n` in decimal.
pub fn u2dec(n: usize) -> (r: String)
    ensures
        r@ == dec_spec(n as nat),
    decreases n,
{
    if n < 10 {
        digit_str(n).to_owned()
    } else {
        let mut r = u2dec(n / 10);
        r.append(digit_str(n % 10));
        r
    }
}

/// A label as it appears inside a DOT quoted string: every `"` stripped.
pub open spec fn dot_label(s: Seq<char>) -> Seq<char> {
    replace_spec(s, seq!['"'], Seq::<char>::empty())
}

/// Strips every double quote from a label.
pub fn strip_quotes(s: &str) -> (r: String)
    ensures
        r@ == dot_label(s@),
{
    proof {
        reveal_strlit("\"");
        reveal_strlit("");
        assert(("\"")@ =~= seq!['"']);
        assert(("")@ =~= Seq::<char>::empty());
    }
    replace_all(s, "\"", "")
}

/// The view of a vector of string pairs, as used for the color table and the
/// class-color rule set.
pub open spec fn pairs_view(v: Seq<(String, String)>) -> Seq<(Seq<char>, Seq<char>)> {
    Seq::new(v.len(), |i: int| (v[i].0@, v[i].1@))
}

/// A label wrapped in double quotes.
pub open spec fn quoted(l: Seq<char>) -> Seq<char> {
    "\""@ + l + "\""@
}

/// The quoted label followed by its fillcolor attribute.
pub open spec fn fill_attr(l: Seq<char>, c: Seq<char>) -> Seq<char> {
    quoted(l) + ", fillcolor=\""@ + c + "\""@
}

/// One DOT node statement: `    <i> [ label = "<label>" ]`.
pub open spec fn dot_node_line(i: int, l: Seq<char>) -> Seq<char> {
    "    "@ + dec_spec(i as nat) + " [ label = \""@ + dot_label(l) + "\" ]\n"@
}

/// One DOT edge statement: `    <f> -> <t> [ label = "<pred>" ]`.
pub open spec fn dot_edge_line(f: int, t: int, l: Seq<char>) -> Seq<char> {
    "    "@ + dec_spec(f as nat) + " -> "@ + dec_spec(t as nat) + " [ label = \""@ + dot_label(l)
        + "\" ]\n"@
}

pub open spec fn dot_node_lines(nv: Seq<Seq<char>>, i: int) -> Seq<char>
    decreases nv.len() - i,
{
    if i < 0 || i >= nv.len() {
        Seq::<char>::empty()
    } else {
        dot_node_line(i, nv[i]) + dot_node_lines(nv, i + 1)
    }
}

pub open spec fn dot_edge_lines(ev: Seq<(int, int, Seq<char>)>, i: int) -> Seq<char>
    decreases ev.len() - i,
{
    if i < 0 || i >= ev.len() {
        Seq::<char>::empty()
    } else {
        dot_edge_line(ev[i].0, ev[i].1, ev[i].2) + dot_edge_lines(ev, i + 1)
    }
}

/// The DOT text before color substitution.
pub open spec fn base_dot(nv: Seq<Seq<char>>, ev: Seq<(int, int, Seq<char>)>) -> Seq<char> {
    "digraph {\n"@ + dot_node_lines(nv, 0) + dot_edge_lines(ev, 0) + "}\n"@
}

/// The color substitutions, applied in table order: every quoted occurrence
/// of a colored node's label gains a fillcolor attribute.
pub open spec fn apply_colors(text: Seq<char>, cv: Seq<(Seq<char>, Seq<char>)>, i: int) -> Seq<char>
    decreases cv.len() - i,
{
    if i < 0 || i >= cv.len() {
        text
    } else {
        apply_colors(replace_spec(text, quoted(cv[i].0), fill_attr(cv[i].0, cv[i].1)), cv, i + 1)
    }
}

/// The full DOT serialization of a graph and its color table.
pub open spec fn dot_spec(
    nv: Seq<Seq<char>>,
    ev: Seq<(int, int, Seq<char>)>,
    cv: Seq<(Seq<char>, Seq<char>)>,
) -> Seq<char> {
    apply_colors(base_dot(nv, ev), cv, 0)
}

/// One D2 edge line: `"from" -> "to": "pred"`.
pub open spec fn d2_edge_line(from: Seq<char>, to: Seq<char>, pred: Seq<char>) -> Seq<char> {
    "\""@ + from + "\" -> \""@ + to + "\": \""@ + pred + "\"\n"@
}

/// One D2 style line: `"node".style.fill: "color"`.
pub open spec fn d2_color_line(node: Seq<char>, color: Seq<char>) -> Seq<char> {
    "\""@ + node + "\".style.fill: \""@ + color + "\"\n"@
}

pub open spec fn d2_edge_lines(
    nv: Seq<Seq<char>>,
    ev: Seq<(int, int, Seq<char>)>,
    i: int,
) -> Seq<char>
    decreases ev.len() - i,
{
    if i < 0 || i >= ev.len() {
        Seq::<char>::empty()
    } else {
        d2_edge_line(nv[ev[i].0], nv[ev[i].1], ev[i].2) + d2_edge_lines(nv, ev, i + 1)
    }
}

pub open spec fn d2_color_lines(cv: Seq<(Seq<char>, Seq<char>)>, i: int) -> Seq<char>
    decreases cv.len() - i,
{
    if i < 0 || i >= cv.len() {
        Seq::<char>::empty()
    } else {
        d2_color_line(cv[i].0, cv[i].1) + d2_color_lines(cv, i + 1)
    }
}

/// The full D2 serialization of a graph and its color table.
pub open spec fn d2_spec(
    nv: Seq<Seq<char>>,
    ev: Seq<(int, int, Seq<char>)>,
    cv: Seq<(Seq<char>, Seq<char>)>,
) -> Seq<char> {
    d2_edge_lines(nv, ev, 0) + d2_color_lines(cv, 0)
}

/// Emits the D2 text for a graph and color table.
#[verifier::loop_isolation(false)]
pub fn render_d2(g: &VizGraph, colors: &Vec<(String, String)>) -> (r: String)
    requires
        g.wf(),
    ensures
        r@ == d2_spec(g.nv(), g.ev(), pairs_view(colors@)),
{
    let mut out = String::new();
    let n = g.edges.len();
    let mut i: usize = 0;
    proof {
        assert(out@ =~= Seq::<char>::empty());
        assert(out@ + d2_edge_lines(g.nv(), g.ev(), 0) =~= d2_edge_lines(g.nv(), g.ev(), 0));
    }
    while i < n
        invariant
            0 <= i <= n,
            n == g.edges@.len(),
            d2_edge_lines(g.nv(), g.ev(), 0) == out@ + d2_edge_lines(g.nv(), g.ev(), i as int),
        decreases n - i,
    {
        let ghost out0 = out@;
        let e = &g.edges[i];
        out.append("\"");
        out.append(g.nodes[e.from].as_str());
        out.append("\" -> \"");
        out.append(g.nodes[e.to].as_str());
        out.append("\": \"");
        out.append(e.label.as_str());
        out.append("\"\n");
        proof {
            assert(g.ev()[i as int] == (e.from as int, e.to as int, e.label@));
            assert(g.nv()[e.from as int] == g.nodes@[e.from as int]@);
            assert(g.nv()[e.to as int] == g.nodes@[e.to as int]@);
            assert(out@ =~= out0 + d2_edge_line(g.nv()[e.from as int], g.nv()[e.to as int], e.label@));
            assert(d2_edge_lines(g.nv(), g.ev(), i as int) == d2_edge_line(
                g.nv()[e.from as int],
                g.nv()[e.to as int],
                e.label@,
            ) + d2_edge_lines(g.nv(), g.ev(), i + 1));
            assert(out@ + d2_edge_lines(g.nv(), g.ev(), i + 1) =~= out0 + d2_edge_lines(
                g.nv(),
                g.ev(),
                i as int,
            ));
        }
        i += 1;
    }
    let ghost edges_done = out@;
    let m = colors.len();
    let mut k: usize = 0;
    proof {
        assert(out@ + d2_color_lines(pairs_view(colors@), 0) =~= d2_spec(
            g.nv(),
            g.ev(),
            pairs_view(colors@),
        ));
    }
    while k < m
        invariant
            0 <= k <= m,
            m == colors@.len(),
            out@ + d2_color_lines(pairs_view(colors@), k as int) =~= d2_spec(
                g.nv(),
                g.ev(),
                pairs_view(colors@),
            ),
        decreases m - k,
    {
        let ghost out0 = out@;
        let c = &colors[k];
        out.append("\"");
        out.append(c.0.as_str());
        out.append("\".style.fill: \"");
        out.append(c.1.as_str());
        out.append("\"\n");
        proof {
            assert(pairs_view(colors@)[k as int] == (c.0@, c.1@));
            assert(out@ =~= out0 + d2_color_line(c.0@, c.1@));
            assert(d2_color_lines(pairs_view(colors@), k as int) == d2_color_line(c.0@, c.1@)
                + d2_color_lines(pairs_view(colors@), k + 1));
            assert(out@ + d2_color_lines(pairs_view(colors@), k + 1) =~= out0 + d2_color_lines(
                pairs_view(colors@),
                k as int,
            ));
        }
        k += 1;
    }
    proof {
        assert(d2_color_lines(pairs_view(colors@), m as int) =~= Seq::<char>::empty());
        assert(out@ =~= d2_spec(g.nv(), g.ev(), pairs_view(colors@)));
    }
    out
}

/// Emits the DOT text for a graph and color table: the numbered statements,
/// then one fillcolor substitution pass per color table entry.
#[verifier::loop_isolation(false)]
pub fn render_dot(g: &VizGraph, colors: &Vec<(String, String)>) -> (r: String)
    requires
        g.wf(),
    ensures
        r@ == dot_spec(g.nv(), g.ev(), pairs_view(colors@)),
{
    let mut out = String::new();
    out.append("digraph {\n");
    proof {
        assert(out@ =~= "digraph {\n"@);
    }
    let n = g.nodes.len();
    let mut i: usize = 0;
    proof {
        assert(out@ + dot_node_lines(g.nv(), 0) =~= "digraph {\n"@ + dot_node_lines(g.nv(), 0));
    }
    while i < n
        invariant
            0 <= i <= n,
            n == g.nodes@.len(),
            out@ + dot_node_lines(g.nv(), i as int) =~= "digraph {\n"@ + dot_node_lines(g.nv(), 0),
        decreases n - i,
    {
        let ghost out0 = out@;
        out.append("    ");
        let num = u2dec(i);
        out.append(num.as_str());
        out.append(" [ label = \"");
        let lab = strip_quotes(g.nodes[i].as_str());
        out.append(lab.as_str());
        out.append("\" ]\n");
        proof {
            assert(g.nv()[i as int] == g.nodes@[i as int]@);
            assert(out@ =~= out0 + dot_node_line(i as int, g.nv()[i as int]));
            assert(dot_node_lines(g.nv(), i as int) == dot_node_line(i as int, g.nv()[i as int])
                + dot_node_lines(g.nv(), i + 1));
            assert(out@ + dot_node_lines(g.nv(), i + 1) =~= out0 + dot_node_lines(
                g.nv(),
                i as int,
            ));
        }
        i += 1;
    }
    let ghost upto_nodes = "digraph {\n"@ + dot_node_lines(g.nv(), 0);
    let ne = g.edges.len();
    let mut j: usize = 0;
    proof {
        assert(out@ + dot_edge_lines(g.ev(), 0) =~= upto_nodes + dot_edge_lines(g.ev(), 0));
    }
    while j < ne
        invariant
            0 <= j <= ne,
            ne == g.edges@.len(),
            out@ + dot_edge_lines(g.ev(), j as int) =~= upto_nodes + dot_edge_lines(g.ev(), 0),
        decreases ne - j,
    {
        let ghost out0 = out@;
        let e = &g.edges[j];
        out.append("    ");
        let nf = u2dec(e.from);
        out.append(nf.as_str());
        out.append(" -> ");
        let nt = u2dec(e.to);
        out.append(nt.as_str());
        out.append(" [ label = \"");
        let lab = strip_quotes(e.label.as_str());
        out.append(lab.as_str());
        out.append("\" ]\n");
        proof {
            assert(g.ev()[j as int] == (e.from as int, e.to as int, e.label@));
            assert(out@ =~= out0 + dot_edge_line(e.from as int, e.to as int, e.label@));
            assert(dot_edge_lines(g.ev(), j as int) == dot_edge_line(
                e.from as int,
                e.to as int,
                e.label@,
            ) + dot_edge_lines(g.ev(), j + 1));
            assert(out@ + dot_edge_lines(g.ev(), j + 1) =~= out0 + dot_edge_lines(
                g.ev(),
                j as int,
            ));
        }
        j += 1;
    }
    out.append("}\n");
    proof {
        assert(dot_node_lines(g.nv(), n as int) =~= Seq::<char>::empty());
        assert(dot_edge_lines(g.ev(), ne as int) =~= Seq::<char>::empty());
        assert(out@ =~= base_dot(g.nv(), g.ev()));
    }
    let m = colors.len();
    let mut k: usize = 0;
    let mut text = out;
    while k < m
        invariant
            0 <= k <= m,
            m == colors@.len(),
            apply_colors(text@, pairs_view(colors@), k as int) == dot_spec(
                g.nv(),
                g.ev(),
                pairs_view(colors@),
            ),
        decreases m - k,
    {
        let c = &colors[k];
        let mut pat = String::new();
        pat.append("\"");
        pat.append(c.0.as_str());
        pat.append("\"");
        let mut rep = String::new();
        rep.append("\"");
        rep.append(c.0.as_str());
        rep.append("\", fillcolor=\"");
        rep.append(c.1.as_str());
        rep.append("\"");
        proof {
            reveal_strlit("\"");
            reveal_strlit("\", fillcolor=\"");
            reveal_strlit(", fillcolor=\"");
            assert(pat@ =~= quoted(c.0@));
            assert(rep@ =~= fill_attr(c.0@, c.1@));
            assert(pairs_view(colors@)[k as int] == (c.0@, c.1@));
        }
        let next = replace_all(text.as_str(), pat.as_str(), rep.as_str());
        proof {
            assert(apply_colors(text@, pairs_view(colors@), k as int) == apply_colors(
                next@,
                pairs_view(colors@),
                k + 1,
            ));
        }
        text = next;
        k += 1;
    }
    text
}

} // verus!
