use segs::views::{
    clamp_count, cursor_at_text_end, inline_edit_intent, should_close_popup, AppView, InlineEditError,
    InlineEditIntent, LayoutOpening, LeftMenuSelector, Mode, ToggleState, ViewTarget, opening_response,
};

#[test]
fn inline_edit_keyboard_and_focus_intents_are_prioritized() {
    // With no terminating input, the editor should remain active.
    assert_eq!(inline_edit_intent(false, false, false), InlineEditIntent::Continue);

    // Escape should take priority over simultaneous submission or focus loss.
    assert_eq!(inline_edit_intent(true, true, true), InlineEditIntent::Cancel);

    // Enter should be recorded as an explicit submission even when focus is also lost.
    assert_eq!(
        inline_edit_intent(false, true, true),
        InlineEditIntent::Submit { explicit: true }
    );

    // Focus loss alone should request an implicit submission.
    assert_eq!(
        inline_edit_intent(false, false, true),
        InlineEditIntent::Submit { explicit: false }
    );
}

#[test]
fn duplicate_cursor_uses_the_end_of_the_complete_value() {
    // ASCII duplicate names should place the cursor after the complete suggested value.
    assert_eq!(cursor_at_text_end("Flight Copy"), 11);

    // Cursor placement should count characters rather than UTF-8 bytes.
    assert_eq!(cursor_at_text_end("Café Copy"), 9);
}

#[test]
fn opening_pointer_press_does_not_immediately_close_popup() {
    assert!(!should_close_popup(false, false, true));
}

#[test]
fn outside_pointer_press_closes_established_popup() {
    assert!(should_close_popup(true, false, true));
}

#[test]
fn inside_pointer_press_keeps_popup_open() {
    assert!(!should_close_popup(true, false, false));
}

#[test]
fn explicit_close_request_closes_popup() {
    assert!(should_close_popup(false, true, false));
}

#[test]
fn grid_counts_are_clamped_to_the_allowed_range() {
    assert_eq!(clamp_count(0), 1);
    assert_eq!(clamp_count(1), 1);
    assert_eq!(clamp_count(42), 42);
    assert_eq!(clamp_count(100), 100);
    assert_eq!(clamp_count(101), 100);
}

#[test]
fn views_are_created_for_their_targets() {
    assert!(matches!(AppView::from_target(ViewTarget::Welcome), AppView::Welcome(_)));
    assert!(matches!(AppView::from_target(ViewTarget::Operator), AppView::Operator(_)));
    assert!(matches!(AppView::from_target(ViewTarget::Configuration), AppView::Configuration(_)));
}

#[test]
fn menu_tooltips_and_edit_errors_have_messages() {
    assert_eq!(LeftMenuSelector::DataflowEditor.tooltip(), "Dataflow editor");
    assert_eq!(LeftMenuSelector::Charts.tooltip(), "Charts");
    assert_eq!(InlineEditError::Store("disk full".into()).message(), "disk full");
    assert_eq!(InlineEditError::Validation("bad name".into()).message(), "bad name");
}

#[test]
fn startup_opens_the_operator_view_only_with_an_active_layout() {
    assert!(matches!(AppView::startup(true), AppView::Operator(_)));
    assert!(matches!(AppView::startup(false), AppView::Welcome(_)));
}

#[test]
fn mode_toggle_follows_the_application_mode() {
    let flight = Mode::Operator("flight-00000001".to_owned());
    assert_eq!(ToggleState::Configuration.sync_target(&Mode::Configuration), None);
    assert_eq!(ToggleState::ChooseLayout.sync_target(&Mode::Configuration), None);
    assert_eq!(ToggleState::ChooseLayout.sync_target(&flight), Some(ToggleState::Operator("flight-00000001".to_owned())));
    let operating = ToggleState::from(flight.clone());
    assert_eq!(operating.sync_target(&flight), None);
    assert_eq!(operating.sync_target(&Mode::Configuration), Some(ToggleState::Configuration));
    assert_eq!(Mode::from(ToggleState::ChooseLayout), Mode::Configuration);
    assert_eq!(Mode::from(operating), flight);
}

#[test]
fn opening_a_layout_closes_the_manager_only_when_it_became_active() {
    let operate = opening_response(LayoutOpening::Operate, true);
    assert!(operate.should_close);
    assert_eq!(operate.transition, Some(ViewTarget::Operator));
    let edit = opening_response(LayoutOpening::Edit, true);
    assert!(edit.should_close);
    assert_eq!(edit.transition, Some(ViewTarget::Configuration));
    let failed = opening_response(LayoutOpening::Edit, false);
    assert!(!failed.should_close);
    assert_eq!(failed.transition, None);
}
