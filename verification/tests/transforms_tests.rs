use studio_core::outline::PartLink;
use studio_core::transforms::{transform_order, TRANSFORM_PASSES};

fn part(id: &str, parent: Option<&str>) -> PartLink {
    PartLink { id: id.to_string(), parent_part_id: parent.map(|p| p.to_string()) }
}

#[test]
fn children_follow_their_parents() {
    let parts = vec![part("C", Some("B")), part("B", Some("A")), part("A", None)];
    assert_eq!(transform_order(&parts), vec![2, 1, 0]);
}

#[test]
fn listed_parent_first_resolves_in_one_pass() {
    let parts = vec![part("A", None), part("B", Some("A")), part("C", Some("B")), part("D", None)];
    assert_eq!(transform_order(&parts), vec![0, 1, 2, 3]);
}

#[test]
fn parts_under_unknown_parents_are_left_out() {
    let parts = vec![part("A", None), part("D", Some("X")), part("E", Some("D"))];
    assert_eq!(transform_order(&parts), vec![0]);
}

#[test]
fn an_id_is_placed_once() {
    let parts = vec![part("A", None), part("A", None), part("B", Some("A"))];
    assert_eq!(transform_order(&parts), vec![0, 2]);
}

#[test]
fn deep_chains_listed_backwards_stop_after_the_passes() {
    // P0 <- P1 <- ... <- P11, listed child first: one level per pass
    let mut parts = Vec::new();
    for i in (0..12).rev() {
        let parent = if i == 0 { None } else { Some(format!("P{}", i - 1)) };
        parts.push(PartLink { id: format!("P{}", i), parent_part_id: parent });
    }
    let order = transform_order(&parts);
    assert_eq!(TRANSFORM_PASSES, 10);
    assert_eq!(order.len(), 10);
    assert_eq!(order, vec![11, 10, 9, 8, 7, 6, 5, 4, 3, 2]);
}

#[test]
fn cycles_are_never_placed() {
    let parts = vec![part("A", Some("B")), part("B", Some("A")), part("R", None)];
    assert_eq!(transform_order(&parts), vec![2]);
}
