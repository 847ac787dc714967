use otree::config::Config;
use otree::nav::{NavEvent, NavState};
use otree::parse::{parse_str, ContentType};
use otree::tree::{summary, Tree};
use otree::value::TreeValue;

fn build(text: &str, format: Option<ContentType>) -> Tree {
    let cfg = Config::default();
    let value = parse_str(text, format).unwrap();
    Tree::build(&value, &cfg.icons)
}

fn labels(tree: &Tree) -> Vec<String> {
    tree.nodes.iter().map(|n| n.label.clone()).collect()
}

#[test]
fn json_scenario_labels_and_expansion() {
    let tree = build(r#"{"a": [1, 2], "b": null}"#, Some(ContentType::Json));
    assert_eq!(labels(&tree), vec!["a arr = 2 items", "0 num = 1", "1 num = 2", "b null = null"]);
    let roots: Vec<usize> =
        (0..tree.nodes.len()).filter(|&i| tree.nodes[i].parent.is_none()).collect();
    assert_eq!(roots, vec![0, 3]);
    assert_eq!(tree.nodes[1].path, vec!["a".to_string(), "0".to_string()]);
    assert_eq!(tree.nodes[2].parent, Some(0));

    let mut nav = NavState::new(&tree);
    assert!(nav.move_down(&tree));
    assert_eq!(nav.selected, Some(0));
    assert!(nav.move_down(&tree));
    assert_eq!(nav.selected, Some(3));
    assert!(nav.move_up(&tree));
    assert!(nav.toggle_selected(&tree));
    assert!(nav.move_down(&tree));
    assert_eq!(nav.selected, Some(1));
    assert_eq!(tree.nodes[1].label, "0 num = 1");
    assert!(nav.move_down(&tree));
    assert_eq!(tree.nodes[nav.selected.unwrap()].label, "1 num = 2");
}

#[test]
fn yaml_documents_scenario() {
    let tree = build("1\n---\n2\n", None);
    assert_eq!(labels(&tree), vec!["0 num = 1", "1 num = 2"]);
    assert!(tree.nodes.iter().all(|n| n.parent.is_none() && n.children.is_none()));
}

#[test]
fn toml_float_scenario() {
    let tree = build("x = 3.0", Some(ContentType::Toml));
    assert_eq!(labels(&tree), vec!["x num = 3.0"]);
}

#[test]
fn scalar_document_is_one_root() {
    let tree = build("\"hi\\n\"", Some(ContentType::Json));
    assert_eq!(labels(&tree), vec!["root str = \"hi\\n\""]);
    assert!(tree.nodes[0].path.is_empty());
    assert_eq!(tree.nodes[0].detail, "hi\n");
}

#[test]
fn counts_and_plurals() {
    let tree = build(r#"{"e": [], "o": [7], "m": [1, 2, 3], "f": {}, "g": {"k": 1}, "h": {"k": 1, "l": 2}}"#,
        Some(ContentType::Json));
    let roots: Vec<String> =
        tree.nodes.iter().filter(|n| n.parent.is_none()).map(|n| n.label.clone()).collect();
    assert_eq!(
        roots,
        vec![
            "e arr = 0 items",
            "o arr = 1 item",
            "m arr = 3 items",
            "f obj = 0 fields",
            "g obj = 1 field",
            "h obj = 2 fields",
        ]
    );
    assert_eq!(tree.nodes[0].children, Some(0));
}

#[test]
fn summaries_of_scalars() {
    assert_eq!(summary(&TreeValue::Null), "null");
    assert_eq!(summary(&TreeValue::Bool(false)), "false");
    assert_eq!(summary(&TreeValue::Number("1e5".to_string())), "1e5");
    assert_eq!(summary(&TreeValue::String("a\"b".to_string())), "\"a\\\"b\"");
    let big = TreeValue::Array((0..12).map(|_| TreeValue::Null).collect(), String::new());
    assert_eq!(summary(&big), "12 items");
}

#[test]
fn every_node_has_its_detail() {
    let tree = build(r#"{"a": {"b": true}, "c": "t"}"#, Some(ContentType::Json));
    let details: Vec<&str> = tree.nodes.iter().map(|n| n.detail.as_str()).collect();
    let again = parse_str(details[0], Some(ContentType::Json)).unwrap();
    assert!(matches!(again, TreeValue::Object(ref f, _) if f.len() == 1 && f[0].0 == "b"));
    assert_eq!(&details[1..], &["true", "t"]);
    let mut paths: Vec<Vec<String>> = tree.nodes.iter().map(|n| n.path.clone()).collect();
    paths.sort();
    paths.dedup();
    assert_eq!(paths.len(), tree.nodes.len());
}

#[test]
fn move_down_past_the_end_changes_nothing() {
    let tree = build(r#"[1, [2, 3]]"#, Some(ContentType::Json));
    let mut nav = NavState::new(&tree);
    assert!(nav.select_last(&tree));
    assert_eq!(nav.selected, Some(1));
    assert!(!nav.move_down(&tree));
    assert_eq!(nav.selected, Some(1));
    assert!(!nav.move_down(&tree));
    assert_eq!(nav.selected, Some(1));
    assert!(!nav.select_last(&tree));
}

#[test]
fn left_and_right() {
    let tree = build(r#"{"a": {"b": 1}, "c": 2}"#, Some(ContentType::Json));
    let mut nav = NavState::new(&tree);
    assert!(!nav.move_right(&tree));
    assert!(nav.select_first(&tree));
    assert!(nav.move_right(&tree));
    assert!(nav.expanded[0]);
    assert_eq!(nav.selected, Some(0));
    assert!(nav.move_right(&tree));
    assert_eq!(nav.selected, Some(1));
    assert!(!nav.move_right(&tree));
    assert!(!nav.toggle_selected(&tree));
    assert!(nav.move_left(&tree));
    assert_eq!(nav.selected, Some(0));
    assert!(nav.move_left(&tree));
    assert!(!nav.expanded[0]);
    assert!(!nav.move_left(&tree));
    assert_eq!(nav.selected, Some(0));
    assert!(nav.clear_selection());
    assert!(!nav.clear_selection());
    assert!(nav.move_up(&tree));
    assert_eq!(nav.selected, Some(2));
}

#[test]
fn scrolling_is_clamped() {
    let tree = build(r#"[1, 2, 3, [4, 5]]"#, Some(ContentType::Json));
    let mut nav = NavState::new(&tree);
    assert!(!nav.scroll_up(1));
    assert!(nav.scroll_down(&tree, 3));
    assert_eq!(nav.offset, 3);
    assert!(!nav.scroll_down(&tree, 3));
    nav.selected = Some(3);
    assert!(nav.toggle_selected(&tree));
    assert!(nav.scroll_down(&tree, 1));
    assert_eq!(nav.offset, 4);
    assert!(nav.scroll_down(&tree, 100));
    assert_eq!(nav.offset, 5);
    assert!(nav.scroll_up(3));
    assert_eq!(nav.offset, 2);
    assert!(nav.scroll_up(3));
    assert_eq!(nav.offset, 0);
}

#[test]
fn detail_lookup_by_path() {
    let tree = build(r#"{"a": {"b": 5}, "c": [true]}"#, Some(ContentType::Json));
    let path = vec!["a".to_string(), "b".to_string()];
    assert_eq!(tree.detail(&path).map(|s| s.as_str()), Some("5"));
    let path = vec!["c".to_string(), "0".to_string()];
    assert_eq!(tree.detail(&path).map(|s| s.as_str()), Some("true"));
    let path = vec!["c".to_string(), "1".to_string()];
    assert_eq!(tree.detail(&path), None);
    let nav = {
        let mut nav = NavState::new(&tree);
        nav.select_last(&tree);
        nav
    };
    assert_eq!(nav.selected_path(&tree), Some(&vec!["c".to_string()]));
}

#[test]
fn yaml_mapping_details_are_yaml() {
    let tree = build("a:\n  b: 1\n", Some(ContentType::Yaml));
    assert_eq!(tree.nodes[0].label, "a obj = 1 field");
    assert_eq!(tree.nodes[0].detail, "b: 1\n");
}

#[test]
fn yaml_collision_gives_one_root() {
    let tree = build("? [1]\n: a\n? [2]\n: b\n", Some(ContentType::Yaml));
    assert_eq!(labels(&tree), vec![" str = \"b\""]);
    assert_eq!(tree.nodes[0].path, vec![String::new()]);
}

#[test]
fn label_parts_are_kept() {
    let tree = build(r#"{"k": "v"}"#, Some(ContentType::Json));
    let n = &tree.nodes[0];
    assert_eq!((n.name.as_str(), n.icon.as_str(), n.summary.as_str()), ("k", "str", "\"v\""));
}

#[test]
fn events_drive_transitions() {
    let tree = build(r#"[[1, 2], 3]"#, Some(ContentType::Json));
    let mut nav = NavState::new(&tree);
    assert!(nav.apply(&tree, NavEvent::First));
    assert!(nav.apply(&tree, NavEvent::Right));
    assert!(nav.expanded[0]);
    assert!(nav.apply(&tree, NavEvent::Right));
    assert_eq!(nav.selected, Some(1));
    assert!(nav.apply(&tree, NavEvent::Last));
    assert_eq!(nav.selected, Some(3));
    assert!(!nav.apply(&tree, NavEvent::Down));
    assert!(nav.apply(&tree, NavEvent::PageDown));
    assert_eq!(nav.offset, 3);
    assert!(nav.apply(&tree, NavEvent::WheelUp));
    assert_eq!(nav.offset, 2);
    assert!(nav.apply(&tree, NavEvent::PageUp));
    assert_eq!(nav.offset, 0);
    assert!(!nav.apply(&tree, NavEvent::Left));
    assert_eq!(nav.selected, Some(3));
    assert!(nav.apply(&tree, NavEvent::Clear));
    assert!(!nav.apply(&tree, NavEvent::Toggle));
    assert!(nav.apply(&tree, NavEvent::WheelDown));
    assert!(nav.apply(&tree, NavEvent::Up));
}
