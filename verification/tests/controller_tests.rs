use screenlock::base_entity::BaseEntity;
use screenlock::controller::{ControlEvent, Controller, ControllerEntity, UpdateResult};
use screenlock::count_down_entity::CountDownEntity;
use screenlock::entity::{HasProperties, Named, Visible};
use screenlock::feedback_entity::FeedbackEntity;
use screenlock::input::InputEvent;
use screenlock::password_prompt_entity::PasswordPromptEntity;
use screenlock::static_text_entity::StaticTextEntity;
use screenlock::terminal::DrawContext;

fn event(name: &str, key: &str, value: &str) -> ControlEvent {
    ControlEvent {
        name: name.to_string(),
        property_key: key.to_string(),
        property_value: value.to_string(),
    }
}

#[test]
fn update_result_constructors() {
    let kill = UpdateResult::kill();
    assert!(kill.kill && !kill.focused && kill.events.is_empty());
    let focus = UpdateResult::focus();
    assert!(!focus.kill && focus.focused && focus.events.is_empty());
    let nop = UpdateResult::nop();
    assert!(!nop.kill && !nop.focused && nop.events.is_empty());
    let made = UpdateResult::new(true, true, vec![event("a", "b", "c")]);
    assert!(made.kill && made.focused);
    assert_eq!(made.events.len(), 1);
}

#[test]
fn controller_registers_entities_in_order() {
    let mut controller = Controller::new();
    assert_eq!(controller.entities.len(), 0);
    assert_eq!(controller.poll_interval_ms, 50);
    controller.add_entity(ControllerEntity::Feedback(FeedbackEntity::new("a", "m", 2, 5)));
    controller.add_entity(ControllerEntity::Feedback(FeedbackEntity::new("b", "m", 2, 6)));
    assert_eq!(controller.entities.len(), 2);
    assert_eq!(controller.entity_at(0).get_name(), "FeedbackEntity-a");
    assert_eq!(controller.entity_at(1).get_name(), "FeedbackEntity-b");
}

#[test]
fn routed_event_updates_exactly_the_addressed_entity() {
    let mut controller = Controller::new();
    controller.add_entity(ControllerEntity::Feedback(FeedbackEntity::new("a", "m", 2, 5)));
    controller.add_entity(ControllerEntity::Feedback(FeedbackEntity::new("b", "m", 2, 6)));
    let events = vec![event("FeedbackEntity-b", "visible", "false")];
    controller.execute_entity_events(&events);
    assert_eq!(controller.entity_at(0).get_property("visible"), Some("true"));
    assert_eq!(controller.entity_at(1).get_property("visible"), Some("false"));
}

#[test]
fn event_to_unregistered_name_is_silently_dropped() {
    let mut controller = Controller::new();
    controller.add_entity(ControllerEntity::Feedback(FeedbackEntity::new("a", "m", 2, 5)));
    let events = vec![event("nobody-here", "visible", "false")];
    controller.execute_entity_events(&events);
    assert_eq!(controller.entity_at(0).get_property("visible"), Some("true"));
}

#[test]
fn first_matching_entity_wins_on_duplicate_names() {
    let mut controller = Controller::new();
    controller.add_entity(ControllerEntity::Feedback(FeedbackEntity::new("dup", "m", 2, 5)));
    controller.add_entity(ControllerEntity::Feedback(FeedbackEntity::new("dup", "m", 2, 6)));
    let events = vec![event("FeedbackEntity-dup", "visible", "false")];
    controller.execute_entity_events(&events);
    assert_eq!(controller.entity_at(0).get_property("visible"), Some("false"));
    assert_eq!(controller.entity_at(1).get_property("visible"), Some("true"));
}

#[test]
fn tick_pass_stops_at_the_first_terminating_update() {
    let mut controller = Controller::new();
    controller.add_entity(ControllerEntity::Feedback(FeedbackEntity::new("a", "m", 2, 5)));
    controller.add_entity(ControllerEntity::Countdown(BaseEntity::new(
        CountDownEntity::new("c", 0, 0),
    )));
    controller.add_entity(ControllerEntity::Feedback(FeedbackEntity::new("b", "m", 2, 6)));
    let mut ctx = DrawContext::new();
    match controller.run_tick_pass(&mut ctx) {
        Ok((killed, _events)) => assert_eq!(killed, Some(1)),
        Err(_) => panic!("terminal write failed"),
    }
}

#[test]
fn tick_pass_runs_every_entity_when_none_terminates() {
    let mut controller = Controller::new();
    controller.add_entity(ControllerEntity::Feedback(FeedbackEntity::new("a", "m", 2, 5)));
    controller.add_entity(ControllerEntity::Countdown(BaseEntity::new(
        CountDownEntity::new("c", 3600, 0),
    )));
    let mut ctx = DrawContext::new();
    match controller.run_tick_pass(&mut ctx) {
        Ok((killed, events)) => {
            assert_eq!(killed, None);
            assert!(events.is_empty());
        },
        Err(_) => panic!("terminal write failed"),
    }
}

fn dispatch(controller: &mut Controller, ctx: &mut DrawContext, ev: InputEvent) -> Option<usize> {
    match controller.run_input_pass(ctx, ev) {
        Ok((killed, events)) => {
            if killed.is_none() {
                controller.execute_entity_events(&events);
            }
            killed
        },
        Err(_) => panic!("terminal write failed"),
    }
}

#[test]
fn mismatched_entry_makes_the_linked_feedback_visible() {
    let mut controller = Controller::new();
    let mut feedback = FeedbackEntity::new("fb", "wrong password", 2, 5);
    let prompt = PasswordPromptEntity::new("pw", "> ", "secret", feedback.get_name(), 4);
    feedback.set_visible(false);
    controller.add_entity(ControllerEntity::Password(BaseEntity::new(prompt)));
    controller.add_entity(ControllerEntity::Feedback(feedback));
    let mut ctx = DrawContext::new();
    assert_eq!(dispatch(&mut controller, &mut ctx, InputEvent::Char('x')), None);
    assert_eq!(controller.entity_at(1).get_property("visible"), Some("false"));
    assert_eq!(dispatch(&mut controller, &mut ctx, InputEvent::Enter), None);
    assert_eq!(controller.entity_at(1).get_property("visible"), Some("true"));
}

#[test]
fn matching_entry_terminates_the_dispatch_pass() {
    let mut controller = Controller::new();
    let feedback = FeedbackEntity::new("fb", "wrong password", 2, 5);
    let prompt = PasswordPromptEntity::new("pw", "> ", "ok", feedback.get_name(), 4);
    controller.add_entity(ControllerEntity::Password(BaseEntity::new(prompt)));
    controller.add_entity(ControllerEntity::Feedback(feedback));
    let mut ctx = DrawContext::new();
    assert_eq!(dispatch(&mut controller, &mut ctx, InputEvent::Char('o')), None);
    assert_eq!(dispatch(&mut controller, &mut ctx, InputEvent::Char('k')), None);
    assert_eq!(dispatch(&mut controller, &mut ctx, InputEvent::Enter), Some(0));
}

#[test]
fn wrapped_entities_are_addressable_by_their_synthesized_name() {
    let mut controller = Controller::new();
    let title = StaticTextEntity::new("title", vec!["hello".to_string()], 1);
    controller.add_entity(ControllerEntity::Title(BaseEntity::new(title)));
    let events = vec![event("BaseEntity-StaticTextEntity-title", "visible", "false")];
    controller.execute_entity_events(&events);
    assert_eq!(controller.entity_at(0).get_property("visible"), Some("false"));
}
