use rdfio::lowlevel::GraphView;
use rdfio::lowlevel::Term;
use rdfio::lowlevel::memory::MemoryGraph;
use rdfio::lowlevel::interface::Graph;
use rdfio::parse::common::blanknodelabel;
use rdfio::parse::common::datatype;
use rdfio::parse::common::iriref;
use rdfio::parse::common::langtag;
use rdfio::parse::common::literal;
use rdfio::parse::common::string_literal_quote;
use rdfio::parse::common::term;
use rdfio::parse::common::triple;

#[test]
fn can_parse_iriref() {
    match iriref("<foo>") {
        Ok((_, m)) => assert_eq!(m, "foo"),
        _ => panic!("Expected successful IRIREF parse."),
    }
}

#[test]
fn can_parse_datatype() {
    match datatype("^^<foo>") {
        Ok((_, m)) => assert_eq!(m, "foo"),
        _ => panic!("Expected successful IRIREF parse."),
    }
}

#[test]
fn can_parse_blanknodelabel() {
    match blanknodelabel("_:bar") {
        Ok((_, m)) => assert_eq!(m, "bar"),
        _ => panic!("Expected successful blank node label parse."),
    }
}

#[test]
fn can_parse_langtag() {
    let (rest, m) = langtag("@en .").unwrap();
    assert_eq!(m, "en");
    assert_eq!(rest, " .");
}

#[test]
fn can_parse_string_literal_quote() {
    let (rest, m) = string_literal_quote("\"hello\" more").unwrap();
    assert_eq!(m, "hello");
    assert_eq!(rest, " more");
}

#[test]
fn empty_iriref_is_rejected() {
    assert_eq!(iriref("<>").unwrap_err().offset, 0);
    assert_eq!(iriref("foo").unwrap_err().offset, 0);
    assert_eq!(iriref("<foo").unwrap_err().offset, 0);
}

#[test]
fn empty_blank_node_label_is_rejected() {
    assert_eq!(blanknodelabel("_:").unwrap_err().offset, 0);
}

#[test]
fn datatype_marker_without_reference_is_rejected() {
    assert_eq!(datatype("^^foo").unwrap_err().offset, 2);
    assert_eq!(datatype("^x<foo>").unwrap_err().offset, 0);
}

#[test]
fn plain_literal() {
    let (rest, t) = literal("\"hello\"").unwrap();
    assert_eq!(rest, "");
    assert_eq!(
        t,
        Term::Literal { value: "hello", language: None, datatype: None }
    );
}

#[test]
fn literal_with_language() {
    let (rest, t) = literal("\"hello\"@en").unwrap();
    assert_eq!(rest, "");
    assert_eq!(
        t,
        Term::Literal { value: "hello", language: Some("en"), datatype: None }
    );
}

#[test]
fn literal_with_datatype() {
    let (rest, t) = literal("\"5\"^^<http://www.w3.org/2001/XMLSchema#integer>").unwrap();
    assert_eq!(rest, "");
    assert_eq!(
        t,
        Term::Literal {
            value: "5",
            language: None,
            datatype: Some("http://www.w3.org/2001/XMLSchema#integer"),
        }
    );
}

#[test]
fn literal_with_both_suffixes_is_rejected() {
    assert!(literal("\"s\"@en^^<dt>").is_err());
    assert!(literal("\"s\"^^<dt>@en").is_err());
}

#[test]
fn literal_with_bad_datatype_is_rejected() {
    assert!(literal("\"s\"^^foo").is_err());
    assert!(literal("\"s\"^x").is_err());
}

#[test]
fn term_dispatches_on_first_character() {
    let (_, t) = term("<a>").unwrap();
    assert_eq!(t, Term::NamedNode { value: "a" });
    let (_, t) = term("_:b").unwrap();
    assert_eq!(t, Term::BlankNode { value: "b" });
    let (_, t) = term("\"c\"").unwrap();
    assert_eq!(t, Term::Literal { value: "c", language: None, datatype: None });
    assert!(term("_:").is_err());
    assert!(term("!").is_err());
}

#[test]
fn parse_simple_triple() {
    let (rest, t) = triple("<a> <b> <c> .").unwrap();
    assert_eq!(rest, "");
    assert_eq!(t.subject, Term::NamedNode { value: "a" });
    assert_eq!(t.predicate, Term::NamedNode { value: "b" });
    assert_eq!(t.object, Term::NamedNode { value: "c" });
}

#[test]
fn parse_triple_with_literal_object() {
    let (rest, t) = triple("<a> <b> \"hello\"@en .").unwrap();
    assert_eq!(rest, "");
    assert_eq!(
        t.object,
        Term::Literal { value: "hello", language: Some("en"), datatype: None }
    );
}

#[test]
fn triple_predicate_must_be_named_node() {
    let err = triple("<a> _:p <c> .").unwrap_err();
    assert_eq!(err.offset, 4);
}

#[test]
fn triple_without_period_is_rejected() {
    assert!(triple("<a> <b> <c>").is_err());
}

#[test]
fn parsed_triple_flows_into_store() {
    let text = "<a> <b> \"hello\"@en .";
    let (rest, t) = triple(text).unwrap();
    assert_eq!(rest, "");
    let mut g = MemoryGraph::new();
    g.add(t);
    assert_eq!(g.triple_count(), 1);
}
