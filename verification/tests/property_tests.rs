use screenlock::entity::{HasProperties, Named, Visible};
use screenlock::feedback_entity::FeedbackEntity;
use screenlock::properties::PropertyMap;

#[test]
fn set_then_get_returns_the_value() {
    let mut map = PropertyMap::new();
    assert!(map.set_property("color", "red"));
    assert_eq!(map.get_property("color"), Some("red"));
}

#[test]
fn get_unset_key_is_absent() {
    let map = PropertyMap::new();
    assert_eq!(map.get_property("anything"), None);
}

#[test]
fn set_overwrites_previous_binding() {
    let mut map = PropertyMap::new();
    map.set_property("k", "v1");
    map.set_property("k", "v2");
    assert_eq!(map.get_property("k"), Some("v2"));
    map.set_property("other", "x");
    assert_eq!(map.get_property("k"), Some("v2"));
    assert_eq!(map.get_property("other"), Some("x"));
}

#[test]
fn visibility_defaults_to_visible_when_absent() {
    let mut banner = FeedbackEntity::new("b", "message", 2, 5);
    assert!(banner.is_visible());
    banner.set_property("visible", "banana");
    assert!(!banner.is_visible());
    banner.set_property("visible", "true");
    assert!(banner.is_visible());
    banner.set_visible(false);
    assert!(!banner.is_visible());
    assert_eq!(banner.get_property("visible"), Some("false"));
    banner.set_visible(true);
    assert!(banner.is_visible());
}

#[test]
fn feedback_banner_is_named_and_visible_at_birth() {
    let banner = FeedbackEntity::new("feedback", "msg", 2, 5);
    assert_eq!(banner.get_name(), "FeedbackEntity-feedback");
    assert!(banner.is_visible());
    assert_eq!(banner.get_property("visible"), Some("true"));
}
