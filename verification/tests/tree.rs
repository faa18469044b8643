//! The tree model, parser and serializer on concrete documents.

use nfse_convert::node::{Elem, Node};
use nfse_convert::parse::parse_document;
use nfse_convert::render::{render, render_document};

fn elem(children: Vec<(String, Node)>) -> Node {
    Node::Elem(Elem { attrs: vec![], children })
}

fn text(s: &str) -> Node {
    Node::Text(s.to_string())
}

fn entry(name: &str, n: Node) -> (String, Node) {
    (name.to_string(), n)
}

#[test]
fn parses_scalar_child() {
    let (tag, root) = parse_document("<Doc><Numero>42</Numero></Doc>").unwrap();
    assert_eq!(tag, "Doc".to_string());
    assert_eq!(root, elem(vec![entry("Numero", text("42"))]));
}

#[test]
fn parses_attributes() {
    let (_, root) = parse_document("<Doc><Inf Id=\"abc\"><A>1</A></Inf></Doc>").unwrap();
    let expected = elem(vec![(
        "Inf".to_string(),
        Node::Elem(Elem {
            attrs: vec![("Id".to_string(), "abc".to_string())],
            children: vec![entry("A", text("1"))],
        }),
    )]);
    assert_eq!(root, expected);
}

#[test]
fn repeated_tag_becomes_list() {
    let (_, root) = parse_document("<D><R>1</R><R>2</R></D>").unwrap();
    assert_eq!(
        root,
        elem(vec![entry("R", Node::List(vec![text("1"), text("2")]))])
    );
}

#[test]
fn repeated_tag_promoted_even_when_not_adjacent() {
    let (_, root) = parse_document("<D><R>1</R><S>x</S><R>2</R></D>").unwrap();
    assert_eq!(
        root,
        elem(vec![
            entry("R", Node::List(vec![text("1"), text("2")])),
            entry("S", text("x")),
        ])
    );
}

#[test]
fn whitespace_only_text_is_ignored() {
    let (_, root) = parse_document("<D>\n  <A>1</A>\n</D>").unwrap();
    assert_eq!(root, elem(vec![entry("A", text("1"))]));
}

#[test]
fn text_trimmed_as_scalar() {
    let (_, root) = parse_document("<D><A>  hello world \n</A></D>").unwrap();
    assert_eq!(root, elem(vec![entry("A", text("hello world"))]));
}

#[test]
fn text_discarded_when_element_has_attributes() {
    let (_, root) = parse_document("<D><A x=\"1\">txt</A></D>").unwrap();
    assert_eq!(
        root,
        elem(vec![(
            "A".to_string(),
            Node::Elem(Elem {
                attrs: vec![("x".to_string(), "1".to_string())],
                children: vec![],
            }),
        )])
    );
}

#[test]
fn namespace_prefixes_are_stripped_from_tags() {
    let (tag, root) = parse_document("<ns2:Doc><ns2:A>1</ns2:A></ns2:Doc>").unwrap();
    assert_eq!(tag, "Doc".to_string());
    assert_eq!(root, elem(vec![entry("A", text("1"))]));
}

#[test]
fn xml_declaration_is_skipped() {
    let (tag, _) =
        parse_document("<?xml version=\"1.0\" encoding=\"UTF-8\"?>\n<Doc><A>1</A></Doc>").unwrap();
    assert_eq!(tag, "Doc".to_string());
}

#[test]
fn self_closing_element() {
    let (_, root) = parse_document("<D><A/></D>").unwrap();
    assert_eq!(root, elem(vec![entry("A", elem(vec![]))]));
}

#[test]
fn attribute_with_spaces_around_equals() {
    let (_, root) = parse_document("<D a = \"1\"></D>").unwrap();
    assert_eq!(
        root,
        Node::Elem(Elem {
            attrs: vec![("a".to_string(), "1".to_string())],
            children: vec![],
        })
    );
}

#[test]
fn empty_tag_pair_parses_as_empty_element() {
    let (_, root) = parse_document("<D><A></A></D>").unwrap();
    assert_eq!(root, elem(vec![entry("A", elem(vec![]))]));
}

#[test]
fn text_discarded_when_element_children_present() {
    let (_, root) = parse_document("<D>stray<A>1</A></D>").unwrap();
    assert_eq!(root, elem(vec![entry("A", text("1"))]));
}

#[test]
fn crlf_whitespace_is_ignored() {
    let (_, root) = parse_document("<D>\r\n\t<A>1</A>\r\n</D>").unwrap();
    assert_eq!(root, elem(vec![entry("A", text("1"))]));
}

#[test]
fn malformed_unclosed_tag_fails() {
    assert!(parse_document("<D><A>1</A>").is_err());
}

#[test]
fn malformed_mismatched_close_fails() {
    assert!(parse_document("<D><A>1</B></D>").is_err());
}

#[test]
fn trailing_garbage_fails() {
    assert!(parse_document("<D></D>junk").is_err());
}

#[test]
fn empty_input_fails() {
    assert!(parse_document("").is_err());
}

#[test]
fn renders_scalar_on_one_line() {
    let n = text("42");
    assert_eq!(render(&n, "Numero", ""), "<Numero>42</Numero>".to_string());
}

#[test]
fn renders_empty_element_pair() {
    let n = elem(vec![]);
    assert_eq!(render(&n, "A", ""), "<A></A>".to_string());
}

#[test]
fn renders_attributes_in_order() {
    let n = Node::Elem(Elem {
        attrs: vec![
            ("b".to_string(), "2".to_string()),
            ("a".to_string(), "1".to_string()),
        ],
        children: vec![],
    });
    assert_eq!(render(&n, "T", ""), "<T b=\"2\" a=\"1\"></T>".to_string());
}

#[test]
fn renders_children_indented() {
    let n = elem(vec![entry("A", text("1")), entry("B", text("2"))]);
    assert_eq!(
        render(&n, "D", ""),
        "<D>\n  <A>1</A>\n  <B>2</B>\n</D>".to_string()
    );
}

#[test]
fn renders_list_as_repeated_siblings() {
    let n = elem(vec![entry("R", Node::List(vec![text("1"), text("2")]))]);
    assert_eq!(
        render(&n, "D", ""),
        "<D>\n  <R>1</R>\n  <R>2</R>\n</D>".to_string()
    );
}

#[test]
fn document_has_single_declaration() {
    let n = elem(vec![entry("A", text("1"))]);
    let out = render_document("D", &n);
    assert_eq!(
        out,
        "<?xml version=\"1.0\" encoding=\"UTF-8\"?>\n<D>\n  <A>1</A>\n</D>\n".to_string()
    );
    assert_eq!(out.matches("<?xml").count(), 1);
}

#[test]
fn round_trip_preserves_tree() {
    let original = Node::Elem(Elem {
        attrs: vec![("xmlns".to_string(), "urn:x".to_string())],
        children: vec![
            entry("A", text("one")),
            entry("R", Node::List(vec![text("1"), text("2"), text("3")])),
            entry(
                "B",
                Node::Elem(Elem {
                    attrs: vec![("Id".to_string(), "k7".to_string())],
                    children: vec![entry("C", text("deep"))],
                }),
            ),
            entry("Empty", elem(vec![])),
        ],
    });
    let textual = render_document("Root", &original);
    let (tag, reparsed) = parse_document(&textual).unwrap();
    assert_eq!(tag, "Root".to_string());
    assert_eq!(reparsed, original);
}
