use savon::entries::{find_key, get, insert};
use savon::rpser::xml::{into_element, Element, Node};

fn sample() -> Vec<(String, String)> {
    vec![
        ("a".to_string(), "1".to_string()),
        ("b".to_string(), "2".to_string()),
        ("a".to_string(), "3".to_string()),
    ]
}

#[test]
fn find_key_gives_first_position_or_length() {
    let entries = sample();
    assert_eq!(find_key(&entries, "a"), 0);
    assert_eq!(find_key(&entries, "b"), 1);
    assert_eq!(find_key(&entries, "c"), 3);
    assert_eq!(find_key(&Vec::<(String, String)>::new(), "a"), 0);
}

#[test]
fn get_gives_first_value_of_a_name() {
    let entries = sample();
    assert_eq!(get(&entries, "a"), Some(&"1".to_string()));
    assert_eq!(get(&entries, "b"), Some(&"2".to_string()));
    assert_eq!(get(&entries, "A"), None);
}

#[test]
fn insert_replaces_in_place_or_appends() {
    let mut entries: Vec<(String, String)> = Vec::new();
    insert(&mut entries, "x".to_string(), "1".to_string());
    insert(&mut entries, "y".to_string(), "2".to_string());
    insert(&mut entries, "z".to_string(), "3".to_string());
    insert(&mut entries, "y".to_string(), "4".to_string());
    assert_eq!(
        entries,
        vec![
            ("x".to_string(), "1".to_string()),
            ("y".to_string(), "4".to_string()),
            ("z".to_string(), "3".to_string()),
        ]
    );
}

#[test]
fn node_copy_is_equal() {
    let nodes = vec![
        Node::Element(Element::node("e").with_attr("k", "v").with_text("t")),
        Node::Comment("c".to_string()),
        Node::CData("d".to_string()),
        Node::Text("t".to_string()),
        Node::ProcessingInstruction("p".to_string(), Some("q".to_string())),
        Node::ProcessingInstruction("p".to_string(), None),
    ];
    for node in &nodes {
        assert_eq!(node.cloned(), *node);
    }
}

#[test]
fn element_of_a_node() {
    assert_eq!(into_element(Node::Element(Element::node("e"))), Element::node("e"));
}
