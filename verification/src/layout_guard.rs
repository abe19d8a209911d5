//! The guard that keeps unsaved layout changes from being lost: opening the layout manager,
//! finishing an edit and closing the application first ask how to resolve the changes, and the
//! guarded operation continues once they are saved or discarded.

use vstd::prelude::*;

use crate::views::{SaveDiscardModalChoice, ViewTarget};

verus! {

/// The operation to continue after unsaved changes are resolved.
#[derive(Clone, Copy, Debug, PartialEq, Eq, Structural)]
pub enum PendingAction {
    OpenManager,
    Transition(ViewTarget),
    Close,
}

/// The control that owns the displayed dirty-layout prompt.
#[derive(Clone, Copy, Debug, PartialEq, Eq, Structural)]
pub enum DirtyPromptOwner {
    StatusBar,
    DoneEditing,
}

/// A guarded operation waiting for its prompt, with the error of a failed save.
#[derive(Clone, Debug)]
pub struct DirtyPrompt {
    pub owner: DirtyPromptOwner,
    pub action: PendingAction,
    pub error: Option<String>,
}

/// A layout operation's failure, shown beside the control that triggered it.
#[derive(Clone, Debug)]
pub struct ControlError {
    /// The interface identifier of the control.
    pub owner: u64,
    pub message: String,
}

/// How a dirty-layout prompt was answered on the frame it was shown.
#[derive(Clone, Debug)]
pub enum PromptAnswer {
    /// The prompt stays open.
    Open,
    /// The prompt was closed without a choice.
    Dismissed,
    /// The changes were saved.
    Saved,
    /// Saving failed with this message.
    SaveFailed(String),
    /// The changes were discarded.
    Discarded,
}

/// The interface state that the guard keeps between frames.
#[derive(Clone, Debug)]
pub struct LayoutGuard {
    /// Whether the layout manager is open.
    pub manager_open: bool,
    /// The guarded operation waiting for its prompt.
    pub dirty_prompt: Option<DirtyPrompt>,
    /// Whether closing the application waits for its confirmation.
    pub close_confirmation: bool,
    /// The view transition for the application to perform.
    pub transition: Option<ViewTarget>,
    /// Whether the application should close.
    pub close_request: bool,
    /// The failure shown beside a control.
    pub control_error: Option<ControlError>,
}

/// The state after performing `action`: opening the manager, moving to a view with the manager
/// closed, or asking the application to close.
pub open spec fn spec_execute(g: LayoutGuard, action: PendingAction) -> LayoutGuard {
    match action {
        PendingAction::OpenManager => LayoutGuard { manager_open: true, ..g },
        PendingAction::Transition(t) => LayoutGuard { manager_open: false, transition: Some(t), ..g },
        PendingAction::Close => LayoutGuard { close_request: true, ..g },
    }
}

/// The state after asking for `action` from the control `owner`: with unsaved changes the
/// prompt opens and control errors are cleared; otherwise the action is performed.
pub open spec fn spec_request(g: LayoutGuard, dirty: bool, owner: DirtyPromptOwner, action: PendingAction) -> LayoutGuard {
    if dirty {
        LayoutGuard {
            control_error: None,
            dirty_prompt: Some(DirtyPrompt { owner, action, error: None }),
            ..g
        }
    } else {
        spec_execute(g, action)
    }
}

/// The state after the prompt of control `owner` was answered with `answer`; a prompt of
/// another control, or none, is left as it is.
pub open spec fn spec_answer(g: LayoutGuard, owner: DirtyPromptOwner, answer: PromptAnswer) -> LayoutGuard {
    match g.dirty_prompt {
        Some(prompt) if prompt.owner == owner => match answer {
            PromptAnswer::Open => g,
            PromptAnswer::Dismissed => LayoutGuard { dirty_prompt: None, ..g },
            PromptAnswer::Saved => spec_execute(LayoutGuard { dirty_prompt: None, ..g }, prompt.action),
            PromptAnswer::Discarded => spec_execute(LayoutGuard { dirty_prompt: None, ..g }, prompt.action),
            PromptAnswer::SaveFailed(m) => LayoutGuard {
                dirty_prompt: Some(DirtyPrompt { error: Some(m), ..prompt }),
                ..g
            },
        },
        _ => g,
    }
}

impl LayoutGuard {
    /// Creates the state of a fresh interface: nothing open or pending.
    pub fn new() -> (g: Self)
        ensures
            !g.manager_open,
            g.dirty_prompt is None,
            !g.close_confirmation,
            g.transition is None,
            !g.close_request,
            g.control_error is None,
    {
        LayoutGuard {
            manager_open: false,
            dirty_prompt: None,
            close_confirmation: false,
            transition: None,
            close_request: false,
            control_error: None,
        }
    }

    fn execute(&mut self, action: PendingAction)
        ensures
            *final(self) == spec_execute(*old(self), action),
    {
        match action {
            PendingAction::OpenManager => {
                self.manager_open = true;
            },
            PendingAction::Transition(target) => {
                self.manager_open = false;
                self.transition = Some(target);
            },
            PendingAction::Close => {
                self.close_request = true;
            },
        }
    }

    fn request(&mut self, dirty: bool, owner: DirtyPromptOwner, action: PendingAction)
        ensures
            *final(self) == spec_request(*old(self), dirty, owner, action),
    {
        if dirty {
            self.control_error = None;
            self.dirty_prompt = Some(DirtyPrompt { owner, action, error: None });
        } else {
            self.execute(action);
        }
    }

    /// Opens the layout manager, or asks from the status bar how to resolve unsaved changes.
    pub fn request_open_manager(&mut self, dirty: bool)
        ensures
            *final(self) == spec_request(*old(self), dirty, DirtyPromptOwner::StatusBar, PendingAction::OpenManager),
    {
        self.request(dirty, DirtyPromptOwner::StatusBar, PendingAction::OpenManager);
    }

    /// Moves from configuration to operation, or asks from the Done Editing control how to
    /// resolve unsaved changes.
    pub fn request_done_editing(&mut self, dirty: bool)
        ensures
            *final(self) == spec_request(
                *old(self),
                dirty,
                DirtyPromptOwner::DoneEditing,
                PendingAction::Transition(ViewTarget::Operator),
            ),
    {
        self.request(dirty, DirtyPromptOwner::DoneEditing, PendingAction::Transition(ViewTarget::Operator));
    }

    /// Closes the application, or asks for confirmation when changes are unsaved.
    pub fn request_close(&mut self, dirty: bool)
        ensures
            *final(self) == if dirty {
                LayoutGuard { close_confirmation: true, ..*old(self) }
            } else {
                spec_execute(*old(self), PendingAction::Close)
            },
    {
        if dirty {
            self.close_confirmation = true;
        } else {
            self.execute(PendingAction::Close);
        }
    }

    /// Returns whether the prompt of control `owner` is shown, with the error of a failed save.
    pub fn prompt_for(&self, owner: DirtyPromptOwner) -> (r: Option<Option<&str>>)
        ensures
            match self.dirty_prompt {
                Some(p) if p.owner == owner => r matches Some(e) && match (e, p.error) {
                    (Some(a), Some(b)) => a@ == b@,
                    (None, None) => true,
                    _ => false,
                },
                _ => r is None,
            },
    {
        match &self.dirty_prompt {
            Some(prompt) => {
                if prompt.owner == owner {
                    match &prompt.error {
                        Some(e) => Some(Some(e.as_str())),
                        None => Some(None),
                    }
                } else {
                    None
                }
            },
            None => None,
        }
    }

    /// Records how the prompt of control `owner` was answered: a save or discard continues the
    /// guarded operation, a failed save keeps the prompt open with its error, a dismissal drops
    /// the operation.
    pub fn answer_prompt(&mut self, owner: DirtyPromptOwner, answer: PromptAnswer)
        ensures
            *final(self) == spec_answer(*old(self), owner, answer),
    {
        let prompt = match self.dirty_prompt.take() {
            Some(prompt) => prompt,
            None => return,
        };
        if prompt.owner != owner {
            self.dirty_prompt = Some(prompt);
            return;
        }
        match answer {
            PromptAnswer::Open => {
                self.dirty_prompt = Some(prompt);
            },
            PromptAnswer::Dismissed => {},
            PromptAnswer::Saved => {
                self.execute(prompt.action);
            },
            PromptAnswer::Discarded => {
                self.execute(prompt.action);
            },
            PromptAnswer::SaveFailed(message) => {
                self.dirty_prompt = Some(DirtyPrompt { owner: prompt.owner, action: prompt.action, error: Some(message) });
            },
        }
    }

    /// Records what the layout manager reported: when it closes, control errors are cleared; a
    /// requested view transition is queued.
    pub fn manager_response(&mut self, should_close: bool, transition: Option<ViewTarget>)
        ensures
            final(self).manager_open == (old(self).manager_open && !should_close),
            final(self).control_error == if should_close {
                None
            } else {
                old(self).control_error
            },
            final(self).transition == if transition is Some {
                transition
            } else {
                old(self).transition
            },
            final(self).dirty_prompt == old(self).dirty_prompt,
            final(self).close_confirmation == old(self).close_confirmation,
            final(self).close_request == old(self).close_request,
    {
        if should_close {
            self.manager_open = false;
            self.control_error = None;
        }
        if transition.is_some() {
            self.transition = transition;
        }
    }

    /// Records what the closing confirmation reported: a choice (the changes were saved or
    /// discarded) closes the application; closing the confirmation alone cancels the close.
    pub fn close_confirmation_response(&mut self, choice: Option<SaveDiscardModalChoice>, should_close: bool)
        ensures
            final(self).close_confirmation == (old(self).close_confirmation && !should_close && choice is None),
            final(self).control_error == if should_close || choice is Some {
                None
            } else {
                old(self).control_error
            },
            final(self).close_request == (old(self).close_request || choice is Some),
            final(self).manager_open == old(self).manager_open,
            final(self).transition == old(self).transition,
            final(self).dirty_prompt == old(self).dirty_prompt,
    {
        if should_close {
            self.close_confirmation = false;
            self.control_error = None;
        }
        if choice.is_some() {
            self.close_confirmation = false;
            self.control_error = None;
            self.execute(PendingAction::Close);
        }
    }

    /// Returns and clears the queued view transition.
    pub fn take_transition(&mut self) -> (r: Option<ViewTarget>)
        ensures
            r == old(self).transition,
            *final(self) == (LayoutGuard { transition: None, ..*old(self) }),
    {
        let r = self.transition;
        self.transition = None;
        r
    }

    /// Returns and clears the request to close the application.
    pub fn take_close_request(&mut self) -> (r: bool)
        ensures
            r == old(self).close_request,
            *final(self) == (LayoutGuard { close_request: false, ..*old(self) }),
    {
        let r = self.close_request;
        self.close_request = false;
        r
    }

    /// Shows `message` beside control `owner`, replacing any other control's error.
    pub fn set_control_error(&mut self, owner: u64, message: String)
        ensures
            *final(self) == (LayoutGuard {
                control_error: Some(ControlError { owner, message }),
                ..*old(self)
            }),
    {
        self.control_error = Some(ControlError { owner, message });
    }

    /// Clears the error shown beside control `owner`, leaving another control's error.
    pub fn clear_control_error(&mut self, owner: u64)
        ensures
            *final(self) == match old(self).control_error {
                Some(e) if e.owner == owner => LayoutGuard { control_error: None, ..*old(self) },
                _ => *old(self),
            },
    {
        let clear = match &self.control_error {
            Some(e) => e.owner == owner,
            None => false,
        };
        if clear {
            self.control_error = None;
        }
    }

    /// Returns the error shown beside control `owner`, if any.
    pub fn control_error_for(&self, owner: u64) -> (r: Option<&str>)
        ensures
            match self.control_error {
                Some(e) if e.owner == owner => r matches Some(m) && m@ == e.message@,
                _ => r is None,
            },
    {
        match &self.control_error {
            Some(e) => {
                if e.owner == owner {
                    Some(e.message.as_str())
                } else {
                    None
                }
            },
            None => None,
        }
    }
}

/// Nothing guarded is lost or skipped: with unsaved changes, a request only opens its prompt,
/// and once that prompt is answered by saving or discarding, the state is the one that the
/// request would have produced without unsaved changes, less the prompt.
pub proof fn law_resolved_request_continues(g: LayoutGuard, owner: DirtyPromptOwner, action: PendingAction, saved: bool)
    ensures
        ({
            let asked = spec_request(g, true, owner, action);
            let answer = if saved {
                PromptAnswer::Saved
            } else {
                PromptAnswer::Discarded
            };
            &&& asked.manager_open == g.manager_open
            &&& asked.transition == g.transition
            &&& asked.close_request == g.close_request
            &&& spec_answer(asked, owner, answer) == spec_execute(
                LayoutGuard { control_error: None, dirty_prompt: None, ..g },
                action,
            )
        }),
{
}

/// A dismissed prompt drops its operation: nothing runs, and the prompt is gone.
pub proof fn law_dismissed_request_does_nothing(g: LayoutGuard, owner: DirtyPromptOwner, action: PendingAction)
    ensures
        spec_answer(spec_request(g, true, owner, action), owner, PromptAnswer::Dismissed) == (LayoutGuard {
            control_error: None,
            dirty_prompt: None,
            ..g
        }),
{
}

} // verus!
