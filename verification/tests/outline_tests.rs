use studio_core::outline::{build_tree, parent_chain_ends, reparent_target, OutlineItem, PartLink};

fn item(id: &str, parent: Option<&str>, layers: usize) -> OutlineItem {
    OutlineItem { id: id.to_string(), parent_id: parent.map(|p| p.to_string()), layers_count: layers }
}

fn link(id: &str, parent: Option<&str>) -> PartLink {
    PartLink { id: id.to_string(), parent_part_id: parent.map(|p| p.to_string()) }
}

#[test]
fn tree_nests_children_under_parents() {
    let items = vec![
        item("BG", None, 1),
        item("Btn", None, 3),
        item("Label", Some("Btn"), 2),
        item("Icon", Some("Label"), 1),
        item("Orphan", Some("Missing"), 0),
    ];
    let roots = build_tree(&items, None);
    assert_eq!(roots.len(), 2);
    assert_eq!(roots[0].idx, 0);
    assert_eq!(roots[0].id, "BG");
    assert!(roots[0].children.is_empty());
    assert_eq!(roots[1].idx, 1);
    assert_eq!(roots[1].layers_count, 3);
    assert_eq!(roots[1].children.len(), 1);
    assert_eq!(roots[1].children[0].id, "Label");
    assert_eq!(roots[1].children[0].children[0].idx, 3);
    let under_btn = build_tree(&items, Some(&"Btn".to_string()));
    assert_eq!(under_btn.len(), 1);
    assert_eq!(under_btn[0].idx, 2);
}

#[test]
fn tree_stops_on_cycles() {
    // "A" is both a root and, as a duplicate id, its own child
    let items = vec![item("A", None, 1), item("A", Some("A"), 1)];
    let roots = build_tree(&items, None);
    assert_eq!(roots.len(), 1);
    assert_eq!(roots[0].children.len(), 1);
}

#[test]
fn reparenting_refuses_cycles() {
    let links = vec![link("G", None), link("P", Some("G")), link("C", Some("P"))];
    let g = Some("G".to_string());
    let c = Some("C".to_string());
    assert!(parent_chain_ends(&links, &"G".to_string(), &c));
    assert_eq!(reparent_target(&links, &"G".to_string(), &c), None);
    assert_eq!(reparent_target(&links, &"C".to_string(), &g), Some(2));
    assert_eq!(reparent_target(&links, &"C".to_string(), &None), Some(2));
    assert_eq!(reparent_target(&links, &"X".to_string(), &g), None);
    // a part cannot become its own parent
    assert_eq!(reparent_target(&links, &"P".to_string(), &Some("P".to_string())), None);
}

#[test]
fn cyclic_chains_are_detected() {
    let links = vec![link("A", Some("B")), link("B", Some("A")), link("C", None)];
    assert!(!parent_chain_ends(&links, &"C".to_string(), &Some("A".to_string())));
    assert!(parent_chain_ends(&links, &"A".to_string(), &Some("B".to_string())));
}
