use studio_core::navigation::{
    active_after_removal, position_of, AxiomEvent, ElementRef, SceneNavigator, StudioLog,
};

fn names() -> Vec<String> {
    vec!["Ana Menü".to_string(), "Ayarlar Menüsü".to_string(), "Oyun".to_string()]
}

#[test]
fn push_action_routes_to_trimmed_scene_name() {
    let mut nav = SceneNavigator::new();
    nav.event_queue.push(AxiomEvent::ActionTriggered("PUSH: Oyun ".to_string()));
    let log = nav.process_events(&names());
    assert_eq!(log, vec![StudioLog::Action("PUSH: Oyun ".to_string())]);
    assert_eq!(nav.event_queue, vec![AxiomEvent::PushScene("Oyun".to_string())]);
    // the routed event is handled on the next frame
    let log2 = nav.process_events(&names());
    assert!(log2.is_empty());
    assert_eq!(nav.preview_stack, vec![0, 2]);
    assert!(nav.event_queue.is_empty());
}

#[test]
fn push_removes_every_marker() {
    let mut nav = SceneNavigator::new();
    nav.event_queue.push(AxiomEvent::ActionTriggered("PUSH:OyPUSH:un".to_string()));
    nav.process_events(&names());
    assert_eq!(nav.event_queue, vec![AxiomEvent::PushScene("Oyun".to_string())]);
}

#[test]
fn pop_action_and_pop_scene() {
    let mut nav = SceneNavigator::new();
    nav.event_queue.push(AxiomEvent::PushScene("Oyun".to_string()));
    nav.event_queue.push(AxiomEvent::ActionTriggered("POP".to_string()));
    nav.process_events(&names());
    assert_eq!(nav.preview_stack, vec![0, 2]);
    assert_eq!(nav.event_queue, vec![AxiomEvent::PopScene]);
    nav.process_events(&names());
    assert_eq!(nav.preview_stack, vec![0]);
    // the last previewed scene is never popped
    nav.event_queue.push(AxiomEvent::PopScene);
    nav.process_events(&names());
    assert_eq!(nav.preview_stack, vec![0]);
}

#[test]
fn other_actions_only_log() {
    let mut nav = SceneNavigator::new();
    nav.event_queue.push(AxiomEvent::ActionTriggered("START_GAME".to_string()));
    nav.event_queue.push(AxiomEvent::SystemMessage("hello".to_string()));
    let log = nav.process_events(&names());
    assert_eq!(
        log,
        vec![StudioLog::Action("START_GAME".to_string()), StudioLog::System("hello".to_string())]
    );
    assert!(nav.event_queue.is_empty());
    assert_eq!(nav.preview_stack, vec![0]);
}

#[test]
fn scene_change_resets_preview() {
    let mut nav = SceneNavigator::new();
    nav.event_queue.push(AxiomEvent::PushScene("Oyun".to_string()));
    nav.event_queue.push(AxiomEvent::SceneChangeRequested("Ayarlar Menüsü".to_string()));
    nav.process_events(&names());
    assert_eq!(nav.active_scene, 1);
    assert_eq!(nav.preview_stack, vec![1]);
}

#[test]
fn unknown_scenes_change_nothing() {
    let mut nav = SceneNavigator::new();
    nav.event_queue.push(AxiomEvent::SceneChangeRequested("Yok".to_string()));
    nav.event_queue.push(AxiomEvent::PushScene("Yok".to_string()));
    nav.process_events(&names());
    assert_eq!(nav.active_scene, 0);
    assert_eq!(nav.preview_stack, vec![0]);
}

#[test]
fn scenes_are_not_pushed_twice() {
    let mut nav = SceneNavigator::new();
    nav.event_queue.push(AxiomEvent::PushScene("Oyun".to_string()));
    nav.event_queue.push(AxiomEvent::PushScene("Oyun".to_string()));
    nav.event_queue.push(AxiomEvent::PushScene("Ana Menü".to_string()));
    nav.process_events(&names());
    assert_eq!(nav.preview_stack, vec![0, 2]);
}

#[test]
fn first_scene_with_a_name_wins() {
    let n = vec!["a".to_string(), "b".to_string(), "a".to_string()];
    assert_eq!(position_of(&n, &"a".to_string()), Some(0));
    assert_eq!(position_of(&n, &"b".to_string()), Some(1));
    assert_eq!(position_of(&n, &"c".to_string()), None);
}

#[test]
fn toggling_play_previews_active_scene() {
    let mut nav = SceneNavigator::new();
    nav.active_scene = 2;
    nav.preview_stack = vec![0, 1];
    nav.toggle_play();
    assert!(nav.is_playing);
    assert_eq!(nav.preview_stack, vec![2]);
    nav.toggle_play();
    assert!(!nav.is_playing);
    assert_eq!(nav.preview_stack, vec![2]);
}

#[test]
fn active_scene_clamps_after_removal() {
    assert_eq!(active_after_removal(2, 2), 1);
    assert_eq!(active_after_removal(0, 2), 0);
    assert_eq!(active_after_removal(5, 1), 0);
}

fn er(scene: usize, index: usize, z_index: i32) -> ElementRef {
    ElementRef { scene, index, z_index }
}

#[test]
fn render_order_sorts_elements_of_active_scene() {
    let mut nav = SceneNavigator::new();
    nav.active_scene = 1;
    let depths = vec![vec![0], vec![3, 1, 2, 1]];
    let order = nav.render_order(&depths);
    assert_eq!(order, vec![er(1, 1, 1), er(1, 3, 1), er(1, 2, 2), er(1, 0, 3)]);
}

#[test]
fn render_order_while_playing_walks_the_stack_and_skips_missing_scenes() {
    let mut nav = SceneNavigator::new();
    nav.is_playing = true;
    nav.preview_stack = vec![0, 5, 1];
    let depths = vec![vec![2, -1], vec![0]];
    let order = nav.render_order(&depths);
    assert_eq!(order, vec![er(0, 1, -1), er(0, 0, 2), er(1, 0, 0)]);
}
