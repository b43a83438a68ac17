use screenlock::base_entity::BaseEntity;
use screenlock::controller::EventContext;
use screenlock::count_down_entity::CountDownEntity;
use screenlock::entity::{Entity, HasProperties, Named, Visible};
use screenlock::feedback_entity::FeedbackEntity;
use screenlock::input::InputEvent;
use screenlock::password_prompt_entity::PasswordPromptEntity;
use screenlock::static_text_entity::StaticTextEntity;
use screenlock::textfmt::format_mm_ss;

fn type_chars(prompt: &mut PasswordPromptEntity, text: &str) {
    for c in text.chars() {
        let consumed = prompt.handle_event(EventContext { event: InputEvent::Char(c) });
        assert!(consumed);
    }
}

#[test]
fn correct_password_then_enter_kills_on_next_update() {
    let mut prompt =
        PasswordPromptEntity::new("pw", "Enter password: ", "hunter2", "FeedbackEntity-fb", 4);
    type_chars(&mut prompt, "hunter2");
    let consumed = prompt.handle_event(EventContext { event: InputEvent::Enter });
    assert!(consumed);
    let result = prompt.update();
    assert!(result.kill);
    assert!(!result.focused);
    assert!(result.events.is_empty());
}

#[test]
fn wrong_password_clears_entry_and_shows_feedback() {
    let mut prompt =
        PasswordPromptEntity::new("pw", "Enter password: ", "hunter2", "FeedbackEntity-fb", 4);
    type_chars(&mut prompt, "hunt");
    let consumed = prompt.handle_event(EventContext { event: InputEvent::Enter });
    assert!(consumed);
    assert!(prompt.password.is_empty());
    let result = prompt.update();
    assert!(!result.kill);
    assert!(result.focused);
    assert_eq!(result.events.len(), 1);
    assert_eq!(result.events[0].name, "FeedbackEntity-fb");
    assert_eq!(result.events[0].property_key, "visible");
    assert_eq!(result.events[0].property_value, "true");
    let again = prompt.update();
    assert!(!again.kill);
    assert!(again.focused);
    assert!(again.events.is_empty());
}

#[test]
fn backspace_removes_last_character_and_other_keys_are_ignored() {
    let mut prompt = PasswordPromptEntity::new("pw", "> ", "ab", "FeedbackEntity-fb", 4);
    type_chars(&mut prompt, "abc");
    assert_eq!(prompt.password, vec!['a', 'b', 'c']);
    assert!(prompt.handle_event(EventContext { event: InputEvent::Backspace }));
    assert_eq!(prompt.password, vec!['a', 'b']);
    assert!(!prompt.handle_event(EventContext { event: InputEvent::Other }));
    assert_eq!(prompt.password, vec!['a', 'b']);
    assert!(prompt.handle_event(EventContext { event: InputEvent::Enter }));
    let result = prompt.update();
    assert!(result.kill);
}

#[test]
fn backspace_on_empty_entry_is_harmless() {
    let mut prompt = PasswordPromptEntity::new("pw", "> ", "x", "FeedbackEntity-fb", 4);
    assert!(prompt.handle_event(EventContext { event: InputEvent::Backspace }));
    assert!(prompt.password.is_empty());
}

#[test]
fn countdown_kills_exactly_when_elapsed_reaches_total() {
    let mut countdown = CountDownEntity::new("c", 20, 0);
    let running = countdown.tick(19);
    assert!(!running.kill);
    assert_eq!(countdown.print_text, "00:01");
    let over = countdown.tick(20);
    assert!(over.kill);
    assert_eq!(countdown.print_text, "00:00");
    let well_over = countdown.tick(1000);
    assert!(well_over.kill);
    assert_eq!(countdown.print_text, "00:00");
}

#[test]
fn countdown_text_is_zero_padded_minutes_and_seconds() {
    let mut countdown = CountDownEntity::new("c", 3600, 0);
    countdown.tick(0);
    assert_eq!(countdown.print_text, "60:00");
    countdown.tick(3510);
    assert_eq!(countdown.print_text, "01:30");
    countdown.tick(3599);
    assert_eq!(countdown.print_text, "00:01");
}

#[test]
fn formats_mm_ss() {
    assert_eq!(format_mm_ss(0), "00:00");
    assert_eq!(format_mm_ss(59), "00:59");
    assert_eq!(format_mm_ss(61), "01:01");
    assert_eq!(format_mm_ss(90), "01:30");
    assert_eq!(format_mm_ss(7200), "120:00");
}

#[test]
fn feedback_hides_after_its_show_duration() {
    let mut banner = FeedbackEntity::new("fb", "wrong password", 2, 5);
    assert!(banner.is_visible());
    let result = banner.apply_tick(false);
    assert!(!result.kill && !result.focused && result.events.is_empty());
    assert!(banner.is_visible());
    banner.apply_tick(true);
    assert!(!banner.is_visible());
    banner.apply_tick(true);
    assert!(!banner.is_visible());
}

#[test]
fn wrapped_entity_gets_namespaced_name_and_empty_properties() {
    let inner = StaticTextEntity::new("title", vec!["one".to_string(), "two".to_string()], 1);
    assert_eq!(inner.get_name(), "StaticTextEntity-title");
    let mut wrapped = BaseEntity::new(inner);
    assert_eq!(wrapped.get_name(), "BaseEntity-StaticTextEntity-title");
    assert_eq!(wrapped.get_property("visible"), None);
    assert!(wrapped.is_visible());
    wrapped.set_visible(false);
    assert!(!wrapped.is_visible());
    wrapped.set_visible(true);
    assert!(wrapped.is_visible());
}

#[test]
fn wrapper_delegates_updates_unchanged() {
    let mut wrapped = BaseEntity::new(CountDownEntity::new("c", 20, 0));
    let result = wrapped.update();
    assert!(!result.kill);
    let mut done = BaseEntity::new(CountDownEntity::new("c", 0, 0));
    let result = done.update();
    assert!(result.kill);
    assert_eq!(done.delegate_entity.print_text, "00:00");
}
