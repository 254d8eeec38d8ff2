use nova::base::{EntityName, NovaSystemSet, Visible};

#[test]
fn test_nova_system_set_equality() {
    assert_eq!(NovaSystemSet::Input, NovaSystemSet::Input);
    assert_ne!(NovaSystemSet::Input, NovaSystemSet::Logic);
}

#[test]
fn test_nova_system_set_debug() {
    let set = NovaSystemSet::Physics;
    let debug_str = format!("{:?}", set);
    assert!(debug_str.contains("Physics"));
}

#[test]
fn entity_name_and_visibility() {
    let name = EntityName::new("player");
    assert_eq!(name.0, "player");
    assert!(Visible::new(true).0);
    assert!(!Visible::default().0);
}
