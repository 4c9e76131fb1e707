use rdf_class_viz::color::{build_subclass_query, TableOracle};
use rdf_class_viz::format::{format_from_str, RdfFormat, VizError};
use rdf_class_viz::graph::VizGraph;
use rdf_class_viz::render::{render_d2, render_dot, u2dec};
use rdf_class_viz::rewrite::rewrite_term;
use rdf_class_viz::viz::{edge_query_text, AcceptAll, EdgeFilter, Visualizer};

fn no_ontology() -> TableOracle {
    TableOracle { yes: Vec::new() }
}

fn row(from: &str, p: &str, to: &str) -> (String, String, String) {
    (
        format!("<http://example.com/{}>", from),
        format!("<http://example.com/{}>", p),
        format!("<http://example.com/{}>", to),
    )
}

#[test]
fn format_tags() {
    assert_eq!(format_from_str("turtle"), Ok(RdfFormat::Turtle));
    assert_eq!(format_from_str("ttl"), Ok(RdfFormat::Turtle));
    assert_eq!(format_from_str("ntriples"), Ok(RdfFormat::NTriples));
    assert_eq!(format_from_str("triple"), Ok(RdfFormat::NTriples));
    assert_eq!(format_from_str("rdfxml"), Ok(RdfFormat::RdfXml));
    assert_eq!(format_from_str("json"), Err(VizError::Config));
    assert_eq!(format_from_str(""), Err(VizError::Config));
}

#[test]
fn rewrite_shortens_known_namespaces() {
    assert_eq!(
        rewrite_term("<http://www.w3.org/2002/07/owl#Class>"),
        "owl:Class"
    );
    assert_eq!(
        rewrite_term("<http://www.w3.org/2000/01/rdf-schema#subClassOf>"),
        "rdfs:subClassOf"
    );
    assert_eq!(
        rewrite_term("<https://brickschema.org/schema/Brick#AHU>"),
        "brick:AHU"
    );
    assert_eq!(rewrite_term("<http://example.com/A>"), "http://example.com/A");
    assert_eq!(rewrite_term("\"hello\""), "hello");
}

#[test]
fn rewrite_is_idempotent_on_short_labels() {
    let once = rewrite_term("<http://www.w3.org/2002/07/owl#Class>");
    let twice = rewrite_term(&once);
    assert_eq!(once, twice);
    assert_eq!(rewrite_term("ex:Person"), "ex:Person");
}

#[test]
fn decimal_rendering() {
    assert_eq!(u2dec(0), "0");
    assert_eq!(u2dec(7), "7");
    assert_eq!(u2dec(10), "10");
    assert_eq!(u2dec(90210), "90210");
}

#[test]
fn edge_query_selects_typed_class_edges() {
    let q = edge_query_text();
    assert!(q.contains("SELECT ?from ?p ?to"));
    assert!(q.contains("?x rdf:type ?from"));
    assert!(q.contains("{ ?from rdf:type+ owl:Class } UNION { ?from rdf:type+ rdfs:Class }"));
}

#[test]
fn graph_dedups_nodes_and_edges() {
    let mut g = VizGraph::new();
    g.insert_edge_labelled(&"A".to_string(), &"B".to_string(), &"p1".to_string());
    g.insert_edge_labelled(&"A".to_string(), &"B".to_string(), &"p2".to_string());
    g.insert_edge_labelled(&"A".to_string(), &"B".to_string(), &"p3".to_string());
    assert_eq!(g.nodes.len(), 2);
    assert_eq!(g.edges.len(), 1);
    assert_eq!(g.edges[0].label, "p3");
    let d2 = render_d2(&g, &Vec::new());
    assert_eq!(d2, "\"A\" -> \"B\": \"p3\"\n");
}

#[test]
fn dot_rendering_with_colors() {
    let mut g = VizGraph::new();
    g.insert_edge_labelled(&"A".to_string(), &"B".to_string(), &"p".to_string());
    let colors = vec![("A".to_string(), "#ff0000".to_string())];
    let dot = render_dot(&g, &colors);
    assert_eq!(
        dot,
        "digraph {\n    0 [ label = \"A\", fillcolor=\"#ff0000\" ]\n    1 [ label = \"B\" ]\n    0 -> 1 [ label = \"p\" ]\n}\n"
    );
}

#[test]
fn d2_rendering_with_colors() {
    let mut g = VizGraph::new();
    g.insert_edge_labelled(&"A".to_string(), &"B".to_string(), &"p".to_string());
    let colors = vec![
        ("A".to_string(), "#ff0000".to_string()),
        ("B".to_string(), "#ffffff".to_string()),
    ];
    let d2 = render_d2(&g, &colors);
    assert_eq!(
        d2,
        "\"A\" -> \"B\": \"p\"\n\"A\".style.fill: \"#ff0000\"\n\"B\".style.fill: \"#ffffff\"\n"
    );
}

#[test]
fn round_trip_self_loop_white_fill() {
    // The edge query on a dataset where Alice knows Bob and both are
    // Persons yields the single class-level row (Person, knows, Person).
    let rows = vec![row("Person", "knows", "Person")];
    let mut v: Visualizer<AcceptAll> = Visualizer::new().unwrap();
    let dot = v.create_graph(&rows, &no_ontology()).unwrap();
    let d2 = v.graph_to_d2lang().unwrap();
    assert_eq!(
        d2,
        "\"http://example.com/Person\" -> \"http://example.com/Person\": \"http://example.com/knows\"\n\
         \"http://example.com/Person\".style.fill: \"#ffffff\"\n"
    );
    assert_eq!(
        dot,
        "digraph {\n    0 [ label = \"http://example.com/Person\", fillcolor=\"#ffffff\" ]\n    0 -> 0 [ label = \"http://example.com/knows\" ]\n}\n"
    );
}

#[test]
fn color_default_is_white_without_rules() {
    let rows = vec![row("CA", "p", "CB"), row("CB", "q", "CA")];
    let mut v: Visualizer<AcceptAll> = Visualizer::new().unwrap();
    v.create_graph(&rows, &no_ontology()).unwrap();
    let d2 = v.graph_to_d2lang().unwrap();
    let fills: Vec<&str> = d2.lines().filter(|l| l.contains(".style.fill")).collect();
    assert_eq!(fills.len(), 2);
    assert!(fills.iter().all(|l| l.ends_with(": \"#ffffff\"")));
}

struct RejectP2;

impl EdgeFilter for RejectP2 {
    fn accept(&self, _from: &str, _to: &str, edge: &str) -> bool {
        !edge.contains("p2")
    }
}

#[test]
fn filter_prunes_rejected_edges() {
    let rows = vec![row("CA", "p1", "CB"), row("CA", "p2", "CC")];
    let mut v: Visualizer<RejectP2> = Visualizer::new().unwrap();
    v.add_filter(RejectP2);
    v.create_graph(&rows, &no_ontology()).unwrap();
    let d2 = v.graph_to_d2lang().unwrap();
    let edge_lines: Vec<&str> = d2.lines().filter(|l| l.contains(" -> ")).collect();
    assert_eq!(
        edge_lines,
        vec!["\"http://example.com/CA\" -> \"http://example.com/CB\": \"http://example.com/p1\""]
    );
    assert!(!d2.contains("CC"));
}

/// An oracle for an ontology where Sub is a transitive subclass of both
/// ClassX and ClassY: exactly the two ASK queries the resolver phrases for
/// the raw term `<.../Sub>` are answered yes.
fn sub_of_x_and_y() -> TableOracle {
    TableOracle {
        yes: vec![
            build_subclass_query("<http://example.com/Sub>", "http://example.com/ClassX"),
            build_subclass_query("<http://example.com/Sub>", "http://example.com/ClassY"),
        ],
    }
}

#[test]
fn color_precedence_first_rule_wins() {
    let rows = vec![row("Sub", "rel", "Sub")];
    let oracle = sub_of_x_and_y();

    let mut v: Visualizer<AcceptAll> = Visualizer::new().unwrap();
    v.add_class_color_map(vec![
        ("http://example.com/ClassX".to_string(), "red".to_string()),
        ("http://example.com/ClassY".to_string(), "blue".to_string()),
    ]);
    v.create_graph(&rows, &oracle).unwrap();
    let d2 = v.graph_to_d2lang().unwrap();
    assert!(d2.contains("\"http://example.com/Sub\".style.fill: \"red\""));

    let mut w: Visualizer<AcceptAll> = Visualizer::new().unwrap();
    w.add_class_color_map(vec![
        ("http://example.com/ClassY".to_string(), "blue".to_string()),
        ("http://example.com/ClassX".to_string(), "red".to_string()),
    ]);
    w.create_graph(&rows, &oracle).unwrap();
    let d2w = w.graph_to_d2lang().unwrap();
    assert!(d2w.contains("\"http://example.com/Sub\".style.fill: \"blue\""));
}

#[test]
fn unmatched_rules_fall_back_to_white() {
    let rows = vec![row("Other", "rel", "Other")];
    let mut v: Visualizer<AcceptAll> = Visualizer::new().unwrap();
    v.add_class_color_map(vec![
        ("http://example.com/ClassX".to_string(), "red".to_string()),
    ]);
    v.create_graph(&rows, &sub_of_x_and_y()).unwrap();
    let d2 = v.graph_to_d2lang().unwrap();
    assert!(d2.contains("\"http://example.com/Other\".style.fill: \"#ffffff\""));
}

#[test]
fn reset_isolates_successive_runs() {
    let mut v: Visualizer<AcceptAll> = Visualizer::new().unwrap();
    v.create_graph(&vec![row("CA", "p", "CB")], &no_ontology())
        .unwrap();
    let first = v.graph_to_d2lang().unwrap();
    assert!(first.contains("CA"));
    v.create_graph(&vec![row("CD", "q", "CE")], &no_ontology())
        .unwrap();
    let second = v.graph_to_d2lang().unwrap();
    assert!(second.contains("CD") && second.contains("CE"));
    assert!(!second.contains("CA") && !second.contains("CB"));
}

#[test]
fn dedup_end_to_end_two_nodes_one_edge() {
    // The same class pair under three distinct predicates collapses to one
    // edge carrying the last row's predicate, and two nodes.
    let rows = vec![
        row("CA", "p1", "CB"),
        row("CA", "p2", "CB"),
        row("CA", "p3", "CB"),
    ];
    let mut v: Visualizer<AcceptAll> = Visualizer::new().unwrap();
    v.create_graph(&rows, &no_ontology()).unwrap();
    let d2 = v.graph_to_d2lang().unwrap();
    let edge_lines: Vec<&str> = d2.lines().filter(|l| l.contains(" -> ")).collect();
    assert_eq!(
        edge_lines,
        vec!["\"http://example.com/CA\" -> \"http://example.com/CB\": \"http://example.com/p3\""]
    );
    let fills: Vec<&str> = d2.lines().filter(|l| l.contains(".style.fill")).collect();
    assert_eq!(fills.len(), 2);
}

#[test]
fn determinism_two_fresh_instances() {
    let run = || {
        let rows = vec![row("Sub", "rel", "Sub"), row("CA", "p", "CB")];
        let mut v: Visualizer<AcceptAll> = Visualizer::new().unwrap();
        v.add_class_color_map(vec![
            ("http://example.com/ClassX".to_string(), "red".to_string()),
        ]);
        let dot = v.create_graph(&rows, &sub_of_x_and_y()).unwrap();
        let d2 = v.graph_to_d2lang().unwrap();
        (dot, d2)
    };
    assert_eq!(run(), run());
}

#[test]
fn quotes_in_labels_are_stripped_in_dot() {
    let mut g = VizGraph::new();
    g.insert_edge_labelled(
        &"he\"llo".to_string(),
        &"world".to_string(),
        &"p".to_string(),
    );
    let dot = render_dot(&g, &Vec::new());
    assert_eq!(
        dot,
        "digraph {\n    0 [ label = \"hello\" ]\n    1 [ label = \"world\" ]\n    0 -> 1 [ label = \"p\" ]\n}\n"
    );
}

#[test]
fn determinism_with_filter_configured() {
    let run = || {
        let rows = vec![row("CA", "p1", "CB"), row("CA", "p2", "CC"), row("CB", "p3", "CA")];
        let mut v: Visualizer<RejectP2> = Visualizer::new().unwrap();
        v.add_filter(RejectP2);
        let dot = v.create_graph(&rows, &no_ontology()).unwrap();
        let d2 = v.graph_to_d2lang().unwrap();
        (dot, d2)
    };
    assert_eq!(run(), run());
}

struct FailingOracle;

impl rdf_class_viz::color::SubclassOracle for FailingOracle {
    fn entails(&self, _query: &str) -> Result<bool, VizError> {
        Err(VizError::Query)
    }
}

#[test]
fn oracle_failure_propagates() {
    let rows = vec![row("Sub", "rel", "Sub")];
    let mut v: Visualizer<AcceptAll> = Visualizer::new().unwrap();
    v.add_class_color_map(vec![(
        "http://example.com/ClassX".to_string(),
        "red".to_string(),
    )]);
    assert_eq!(v.create_graph(&rows, &FailingOracle), Err(VizError::Query));
}
