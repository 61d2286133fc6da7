use studio_core::cache::TextureCache;

#[test]
fn cache_recomposes_only_on_changed_content() {
    let mut c: TextureCache<u32> = TextureCache::new();
    assert!(c.needs_compose("t1", 5));
    c.store("t1".to_string(), 5, 100);
    assert!(!c.needs_compose("t1", 5));
    assert!(c.needs_compose("t1", 6));
    assert_eq!(c.get("t1"), Some(&100));
    c.store("t1".to_string(), 6, 200);
    assert_eq!(c.get("t1"), Some(&200));
    assert_eq!(c.get("t2"), None);
}

#[test]
fn cache_forgets_textures_left_out() {
    let mut c: TextureCache<u32> = TextureCache::new();
    c.store("a".to_string(), 1, 10);
    c.store("b".to_string(), 2, 20);
    c.store("c".to_string(), 3, 30);
    c.retain_ids(&vec!["c".to_string(), "a".to_string(), "z".to_string()]);
    assert_eq!(c.get("a"), Some(&10));
    assert_eq!(c.get("b"), None);
    assert_eq!(c.get("c"), Some(&30));
}

#[test]
fn taking_an_entry_removes_it() {
    let mut c: TextureCache<u32> = TextureCache::new();
    c.store("a".to_string(), 1, 10);
    assert_eq!(c.take("a"), Some((1, 10)));
    assert_eq!(c.take("a"), None);
    assert!(c.needs_compose("a", 1));
}
