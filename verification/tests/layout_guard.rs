use segs::layout_guard::{DirtyPromptOwner, LayoutGuard, PendingAction, PromptAnswer};
use segs::views::{SaveDiscardModalChoice, ViewTarget};

#[test]
fn clean_layouts_act_at_once() {
    let mut guard = LayoutGuard::new();
    guard.request_open_manager(false);
    assert!(guard.manager_open);
    guard.request_done_editing(false);
    assert!(!guard.manager_open);
    assert_eq!(guard.take_transition(), Some(ViewTarget::Operator));
    assert_eq!(guard.take_transition(), None);
    guard.request_close(false);
    assert!(guard.take_close_request());
    assert!(!guard.take_close_request());
}

#[test]
fn dirty_layouts_ask_first_and_continue_after_saving() {
    let mut guard = LayoutGuard::new();
    guard.set_control_error(7, "boom".to_owned());
    guard.request_done_editing(true);
    assert!(guard.control_error.is_none());
    assert_eq!(guard.transition, None);
    assert_eq!(guard.prompt_for(DirtyPromptOwner::DoneEditing), Some(None));
    assert_eq!(guard.prompt_for(DirtyPromptOwner::StatusBar), None);

    // Another control's answer is ignored.
    guard.answer_prompt(DirtyPromptOwner::StatusBar, PromptAnswer::Saved);
    assert_eq!(guard.transition, None);

    guard.answer_prompt(DirtyPromptOwner::DoneEditing, PromptAnswer::SaveFailed("disk full".to_owned()));
    assert_eq!(guard.prompt_for(DirtyPromptOwner::DoneEditing), Some(Some("disk full")));
    guard.answer_prompt(DirtyPromptOwner::DoneEditing, PromptAnswer::Saved);
    assert!(guard.dirty_prompt.is_none());
    assert_eq!(guard.take_transition(), Some(ViewTarget::Operator));
}

#[test]
fn discarding_opens_the_manager_and_dismissing_does_nothing() {
    let mut guard = LayoutGuard::new();
    guard.request_open_manager(true);
    assert!(!guard.manager_open);
    assert!(matches!(guard.dirty_prompt.as_ref().map(|p| p.action), Some(PendingAction::OpenManager)));
    guard.answer_prompt(DirtyPromptOwner::StatusBar, PromptAnswer::Discarded);
    assert!(guard.manager_open);

    let mut guard = LayoutGuard::new();
    guard.request_open_manager(true);
    guard.answer_prompt(DirtyPromptOwner::StatusBar, PromptAnswer::Open);
    assert!(guard.dirty_prompt.is_some());
    guard.answer_prompt(DirtyPromptOwner::StatusBar, PromptAnswer::Dismissed);
    assert!(guard.dirty_prompt.is_none());
    assert!(!guard.manager_open);
}

#[test]
fn closing_with_unsaved_changes_waits_for_a_choice() {
    let mut guard = LayoutGuard::new();
    guard.request_close(true);
    assert!(guard.close_confirmation);
    assert!(!guard.close_request);
    guard.close_confirmation_response(None, false);
    assert!(guard.close_confirmation);
    guard.close_confirmation_response(Some(SaveDiscardModalChoice::Discard), false);
    assert!(!guard.close_confirmation);
    assert!(guard.take_close_request());

    let mut guard = LayoutGuard::new();
    guard.request_close(true);
    guard.close_confirmation_response(None, true);
    assert!(!guard.close_confirmation);
    assert!(!guard.close_request);
}

#[test]
fn manager_responses_close_and_queue_transitions() {
    let mut guard = LayoutGuard::new();
    guard.request_open_manager(false);
    guard.set_control_error(3, "cannot open".to_owned());
    assert_eq!(guard.control_error_for(3), Some("cannot open"));
    assert_eq!(guard.control_error_for(4), None);
    guard.clear_control_error(4);
    assert_eq!(guard.control_error_for(3), Some("cannot open"));
    guard.manager_response(true, Some(ViewTarget::Configuration));
    assert!(!guard.manager_open);
    assert!(guard.control_error.is_none());
    assert_eq!(guard.take_transition(), Some(ViewTarget::Configuration));
}
