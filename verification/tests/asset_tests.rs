use nova::assets::{AssetGroup, AssetLoadState, AssetRegistry};

#[test]
fn test_asset_registry_register() {
    let mut registry = AssetRegistry::default();
    registry.register("textures/player.png");
    registry.register("models/enemy.gltf");

    assert!(registry.is_registered("textures/player.png"));
    assert!(registry.is_registered("models/enemy.gltf"));
    assert!(!registry.is_registered("sounds/music.ogg"));
}

#[test]
fn test_asset_registry_register_many() {
    let mut registry = AssetRegistry::default();
    registry.register_many(&["a.png", "b.png", "c.png"]);

    assert!(registry.is_registered("a.png"));
    assert!(registry.is_registered("b.png"));
    assert!(registry.is_registered("c.png"));
}

#[test]
fn test_asset_group() {
    let mut registry = AssetRegistry::default();
    registry
        .create_group("level1")
        .add("level1/map.json")
        .add("level1/tileset.png")
        .with_preload(true);

    let group = registry.get_group("level1").unwrap();
    assert_eq!(group.name, "level1");
    assert_eq!(group.count(), 2);
    assert!(group.preload);
}

#[test]
fn test_asset_load_state() {
    let mut state = AssetLoadState::default();

    state.start_loading("test.png");
    assert!(state.is_loading("test.png"));
    assert!(!state.is_loaded("test.png"));

    state.mark_loaded("test.png");
    assert!(!state.is_loading("test.png"));
    assert!(state.is_loaded("test.png"));
}

#[test]
fn test_asset_load_state_failed() {
    let mut state = AssetLoadState::default();

    state.start_loading("missing.png");
    state.mark_failed("missing.png", "File not found");

    assert!(!state.is_loading("missing.png"));
    assert!(!state.is_loaded("missing.png"));
    assert!(state.is_failed("missing.png"));
    assert_eq!(state.get_error("missing.png"), Some(&"File not found".to_string()));
}

/// Loading progress as the engine reports it: the quotient of the library's
/// progress fraction.
fn progress(state: &AssetLoadState) -> f32 {
    let (loaded, started) = state.progress_ratio();
    loaded as f32 / started as f32
}

#[test]
fn test_asset_load_progress() {
    let mut state = AssetLoadState::default();

    state.start_loading("a.png");
    state.start_loading("b.png");
    assert_eq!(progress(&state), 0.0);

    state.mark_loaded("a.png");
    assert!((progress(&state) - 0.5).abs() < 0.001);

    state.mark_loaded("b.png");
    assert_eq!(progress(&state), 1.0);
}

#[test]
fn load_state_counts_and_all_loaded() {
    let mut state = AssetLoadState::default();
    assert!(state.all_loaded());
    state.start_loading("a.png");
    state.start_loading("a.png");
    assert_eq!(state.loading_count(), 1);
    assert!(!state.all_loaded());
    state.mark_failed("a.png", "bad");
    state.mark_failed("a.png", "worse");
    assert_eq!(state.failed_count(), 1);
    assert_eq!(state.get_error("a.png").unwrap(), "worse");
    assert!(state.all_loaded());
    assert_eq!(state.get_error("b.png"), None);
}

#[test]
fn registry_groups_and_listing() {
    let mut registry = AssetRegistry::default();
    registry.register("x.png");
    registry.register("x.png");
    registry.register("y.png");
    let mut all = registry.all_registered();
    all.sort();
    assert_eq!(all, vec!["x.png".to_string(), "y.png".to_string()]);

    registry.create_group("g").add("a");
    // Creating an existing group keeps it.
    assert_eq!(registry.create_group("g").count(), 1);
    registry.get_group_mut("g").unwrap().add_many(&["b", "c"]);
    assert_eq!(registry.get_group("g").unwrap().assets, vec!["a", "b", "c"]);
    assert!(registry.get_group("missing").is_none());
    assert!(registry.get_group_mut("missing").is_none());

    let fresh = AssetGroup::new("fresh");
    assert_eq!(fresh.count(), 0);
    assert!(!fresh.preload);
}

#[test]
fn progress_ratio_counts() {
    let mut state = AssetLoadState::default();
    assert_eq!(state.progress_ratio(), (1, 1));
    state.start_loading("a.png");
    state.start_loading("b.png");
    state.start_loading("c.png");
    assert_eq!(state.progress_ratio(), (0, 3));
    state.mark_loaded("b.png");
    assert_eq!(state.progress_ratio(), (1, 3));
    state.mark_failed("c.png", "bad");
    assert_eq!(state.progress_ratio(), (1, 2));
}
