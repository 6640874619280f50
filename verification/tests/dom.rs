use asteria::dom::{Dom, NodeId, NodeKind};
use asteria::tokens::Attribute;

#[test]
fn test_create_dom() {
    let dom = Dom::new();
    assert_eq!(dom.nodes.len(), 1);
    assert!(matches!(dom.get(dom.root()).kind, NodeKind::Document));
}

#[test]
fn test_add_element() {
    let source = b"<html>";
    let mut dom = Dom::new();
    let root = dom.root();
    let html_id = dom.add_element(root, 1, 5, &[]);
    assert_eq!(dom.nodes.len(), 2);
    assert_eq!(dom.get(root).children.len(), 1);
    assert_eq!(dom.get(root).children[0], html_id);
    assert_eq!(dom.get(html_id).parent, Some(root));
    if let NodeKind::Element { tag_start, tag_end } = dom.get(html_id).kind {
        assert_eq!(
            std::str::from_utf8(&source[tag_start as usize..tag_end as usize]).unwrap(),
            "html"
        );
    } else {
        panic!("Expected Element node");
    }
}

#[test]
fn test_add_text() {
    let source = b"Hello";
    let mut dom = Dom::new();
    let root = dom.root();
    let text_id = dom.add_text(root, 0, 5);
    assert_eq!(dom.get(root).children.len(), 1);
    if let NodeKind::Text { start, end } = dom.get(text_id).kind {
        assert_eq!(
            std::str::from_utf8(&source[start as usize..end as usize]).unwrap(),
            "Hello"
        );
    } else {
        panic!("Expected Text node");
    }
}

#[test]
fn test_add_comment() {
    let source = b" a comment ";
    let mut dom = Dom::new();
    let root = dom.root();
    let comment_id = dom.add_comment(root, 0, 11);
    if let NodeKind::Comment { start, end } = dom.get(comment_id).kind {
        assert_eq!(
            std::str::from_utf8(&source[start as usize..end as usize]).unwrap(),
            " a comment "
        );
    } else {
        panic!("Expected Comment node");
    }
}

#[test]
fn test_tree_structure() {
    let _source = b"htmlheadbody";
    let mut dom = Dom::new();
    let root = dom.root();
    let html = dom.add_element(root, 0, 4, &[]);
    let head = dom.add_element(html, 4, 8, &[]);
    let body = dom.add_element(html, 8, 12, &[]);
    assert_eq!(dom.get(html).children.len(), 2);
    assert_eq!(dom.get(html).children[0], head);
    assert_eq!(dom.get(html).children[1], body);
    assert_eq!(dom.get(head).parent, Some(html));
    assert_eq!(dom.get(body).parent, Some(html));
}

#[test]
fn dom_attributes_are_stored_as_offsets() {
    let attr = Attribute { name_start: 5, name_end: 10, value_start: 12, value_end: 16 };
    let mut dom = Dom::new();
    let root = dom.root();
    let div = dom.add_element(root, 1, 4, &[attr]);
    assert_eq!(dom.get(div).attributes, vec![(5, 10, 12, 16)]);
    assert_eq!(div, NodeId(1));
    assert_eq!(div.index(), 1);
}

#[test]
fn test_print_tree() {
    let source = b"<html><body><h1>Hello</h1></body></html>";
    let mut dom = Dom::new();
    let root = dom.root();
    let html = dom.add_element(root, 1, 5, &[]);
    let body = dom.add_element(html, 7, 11, &[]);
    let h1 = dom.add_element(body, 13, 15, &[]);
    dom.add_text(h1, 16, 21);

    let output = dom.format_tree(source);
    assert!(output.contains("Document"));
    assert!(output.contains("Element <html>"));
    assert!(output.contains("Element <body>"));
    assert!(output.contains("Element <h1>"));
    assert!(output.contains("Text \"Hello\""));
}

#[test]
fn test_print_tree_with_attributes() {
    let source = b"<div class=\"main\">";
    let attr = Attribute {
        name_start: 5,
        name_end: 10,
        value_start: 12,
        value_end: 16,
    };

    let mut dom = Dom::new();
    let root = dom.root();
    dom.add_element(root, 1, 4, &[attr]);

    let output = dom.format_tree(source);
    assert!(output.contains("Element <div class=\"main\">"));
}

#[test]
fn print_tree_exact_layout() {
    let source = b"<p hidden id=x>  hi  <!-- note -->   ";
    let mut dom = Dom::new();
    let root = dom.root();
    let attrs = [
        Attribute { name_start: 3, name_end: 9, value_start: 0, value_end: 0 },
        Attribute { name_start: 10, name_end: 12, value_start: 13, value_end: 14 },
    ];
    let p = dom.add_element(root, 1, 2, &attrs);
    dom.add_text(p, 15, 21);
    dom.add_comment(p, 25, 31);
    dom.add_text(p, 34, 37);
    assert_eq!(
        dom.format_tree(source),
        "Document\n  Element <p hidden id=\"x\">\n    Text \"hi\"\n    Comment \"note\"\n"
    );
}

#[test]
fn print_tree_shows_invalid_utf8_as_question_marks() {
    let source = [0xffu8, 0xfe, b'a'];
    let mut dom = Dom::new();
    let root = dom.root();
    dom.add_element(root, 0, 2, &[]);
    assert_eq!(dom.format_tree(&source), "Document\n  Element <???>\n");
}

#[test]
fn get_mut_edits_node_in_place() {
    let mut dom = Dom::new();
    let root = dom.root();
    let t = dom.add_text(root, 0, 1);
    dom.get_mut(t).kind = NodeKind::Text { start: 2, end: 3 };
    assert!(matches!(dom.get(t).kind, NodeKind::Text { start: 2, end: 3 }));
    assert_eq!(dom.get(root).children.len(), 1);
}
