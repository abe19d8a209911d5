//! The decisions of the layout manager window: what the inline name editor shows and does with a
//! submission, which layout stays selected when the search changes, what toggling the startup
//! default sets, and how rows and buttons are labelled.

use vstd::prelude::*;

use crate::catalog::{spec_name_taken, spec_validate_outcome, LayoutCatalog, LayoutManagerError};
use crate::layout::spec_validated_display_name;
use crate::text::{chars_of, push_str, spec_trim, str_equals, string_from_chars, trim_chars};
use crate::views::{InlineEditError, InlineEditIntent, ViewTarget};

verus! {

/// The catalog change made by the inline name editor.
#[derive(Clone, Debug)]
pub enum InlineEditAction {
    Create,
    Duplicate { source: String },
    Rename { source: String },
}

/// The inline name editor: its action, the value typed so far, the error shown beside it, and
/// whether it asks for keyboard focus on the next frame.
#[derive(Clone, Debug)]
pub struct InlineEdit {
    pub action: InlineEditAction,
    pub value: String,
    pub error: Option<InlineEditError>,
    pub request_focus: bool,
}

impl InlineEditAction {
    /// The slug whose own name the edited name may repeat: the renamed layout's.
    pub open spec fn spec_excluding(&self) -> Seq<char> {
        match self {
            InlineEditAction::Rename { source } => source@,
            _ => Seq::empty(),
        }
    }

    /// Returns the slug whose own name the edited name may repeat, if any.
    pub fn excluding(&self) -> (r: Option<&str>)
        ensures
            match r {
                Some(s) => self is Rename && s@ == self.spec_excluding(),
                None => !(self is Rename),
            },
    {
        match self {
            InlineEditAction::Rename { source } => Some(source.as_str()),
            _ => None,
        }
    }
}

/// The message of the catalog's refusal of `name`, ignoring the layout with slug `excluding`;
/// `None` when the catalog accepts it.
pub open spec fn spec_refusal_message(
    entries: Seq<(Seq<char>, Seq<char>)>,
    name: Seq<char>,
    excluding: Seq<char>,
) -> Option<Seq<char>> {
    match spec_validated_display_name(name) {
        Ok(t) => if spec_name_taken(entries, t, excluding) {
            Some("A layout named '"@ + t + "' already exists."@)
        } else {
            None
        },
        Err(e) => Some(e.spec_message()),
    }
}

/// The validation error shown while typing `value`: none for a blank value, otherwise the
/// catalog's refusal, if any.
pub open spec fn spec_typing_error(
    entries: Seq<(Seq<char>, Seq<char>)>,
    value: Seq<char>,
    excluding: Seq<char>,
) -> Option<Seq<char>> {
    if spec_trim(value).len() == 0 {
        None
    } else {
        spec_refusal_message(entries, value, excluding)
    }
}

/// The message of a refusal that the catalog's validation gave.
proof fn lemma_refusal_message(
    entries: Seq<(Seq<char>, Seq<char>)>,
    name: Seq<char>,
    excluding: Seq<char>,
    r: Result<String, LayoutManagerError>,
)
    requires
        spec_validate_outcome(entries, name, excluding, r),
    ensures
        match r {
            Ok(_) => spec_refusal_message(entries, name, excluding) is None,
            Err(e) => spec_refusal_message(entries, name, excluding) == Some(e.spec_message()),
        },
{
}

/// Returns the validation error shown while typing `value`.
pub fn typing_error(catalog: &LayoutCatalog, value: &str, excluding: Option<&str>) -> (r: Option<
    InlineEditError,
>)
    ensures
        match (r, spec_typing_error(
            catalog.view_entries(),
            value@,
            match excluding {
                Some(e) => e@,
                None => Seq::empty(),
            },
        )) {
            (Some(InlineEditError::Validation(m)), Some(t)) => m@ == t,
            (None, None) => true,
            _ => false,
        },
{
    let trimmed = trim_chars(chars_of(value).as_slice());
    if trimmed.len() == 0 {
        return None;
    }
    let r = catalog.validate_name(value, excluding);
    proof {
        lemma_refusal_message(
            catalog.view_entries(),
            value@,
            match excluding {
                Some(e) => e@,
                None => Seq::empty(),
            },
            r,
        );
    }
    match r {
        Ok(_) => None,
        Err(e) => Some(InlineEditError::Validation(e.message())),
    }
}

/// What the inline editor does after a frame's keyboard and focus events.
#[derive(Debug)]
pub enum InlineEditStep {
    /// The editor stays open with this state.
    Keep(InlineEdit),
    /// The editor closes without changing the catalog.
    Close,
    /// The action is to be performed with this validated name; its result is then handed to
    /// [`InlineEdit::finish`].
    Perform(InlineEdit, String),
}

/// Where a finished inline edit leads.
#[derive(Debug)]
pub struct InlineEditFinish {
    /// The editor, still open when the action failed.
    pub edit: Option<InlineEdit>,
    /// The view to open: the configuration of a created or duplicated layout.
    pub transition: Option<ViewTarget>,
    /// The layout to select: a renamed layout under its new slug.
    pub selected: Option<String>,
}

impl InlineEdit {
    /// Recomputes the error shown while typing. An error from storing the layout stays shown
    /// until the value changes, unless `value_changed` says that it did.
    pub fn revalidate(&mut self, catalog: &LayoutCatalog, value_changed: bool)
        ensures
            final(self).action == old(self).action,
            final(self).value == old(self).value,
            final(self).request_focus == old(self).request_focus,
            (value_changed || !(old(self).error matches Some(InlineEditError::Store(_)))) ==> match (
                final(self).error,
                spec_typing_error(catalog.view_entries(), old(self).value@, old(self).action.spec_excluding()),
            ) {
                (Some(InlineEditError::Validation(m)), Some(t)) => m@ == t,
                (None, None) => true,
                _ => false,
            },
            !(value_changed || !(old(self).error matches Some(InlineEditError::Store(_)))) ==> final(self).error
                == old(self).error,
    {
        let keep = match &self.error {
            Some(InlineEditError::Store(_)) => !value_changed,
            _ => false,
        };
        if !keep {
            let error = typing_error(catalog, self.value.as_str(), self.action.excluding());
            self.error = error;
        }
    }

    /// Decides what a frame's `intent` does to the editor: it keeps editing, is cancelled, or
    /// submits. A submitted name that the catalog refuses keeps the editor open with the refusal
    /// shown when the submission was explicit (Enter), and closes it when focus was merely lost.
    pub fn step(self, catalog: &LayoutCatalog, intent: InlineEditIntent) -> (r: InlineEditStep)
        ensures
            match intent {
                InlineEditIntent::Continue => r == InlineEditStep::Keep(self),
                InlineEditIntent::Cancel => r is Close,
                InlineEditIntent::Submit { explicit } => match spec_validated_display_name(self.value@) {
                    Ok(t) if !spec_name_taken(catalog.view_entries(), t, self.action.spec_excluding()) => (
                    r matches InlineEditStep::Perform(e, name) && e == self && name@ == t),
                    _ => if explicit {
                        r matches InlineEditStep::Keep(e) && e.action == self.action && e.value == self.value
                            && e.request_focus && (e.error matches Some(InlineEditError::Validation(m))
                            && Some(m@) == spec_refusal_message(
                            catalog.view_entries(),
                            self.value@,
                            self.action.spec_excluding(),
                        ))
                    } else {
                        r is Close
                    },
                },
            },
    {
        let explicit = match intent {
            InlineEditIntent::Continue => return InlineEditStep::Keep(self),
            InlineEditIntent::Cancel => return InlineEditStep::Close,
            InlineEditIntent::Submit { explicit } => explicit,
        };
        let validation = catalog.validate_name(self.value.as_str(), self.action.excluding());
        proof {
            lemma_refusal_message(
                catalog.view_entries(),
                self.value@,
                self.action.spec_excluding(),
                validation,
            );
        }
        match validation {
            Ok(name) => InlineEditStep::Perform(self, name),
            Err(e) => {
                if explicit {
                    let error = InlineEditError::Validation(e.message());
                    InlineEditStep::Keep(
                        InlineEdit { action: self.action, value: self.value, error: Some(error), request_focus: true },
                    )
                } else {
                    InlineEditStep::Close
                }
            },
        }
    }

    /// Applies the outcome of performing the edit's action: the new or renamed layout's slug, or
    /// the message of the failure. A created or duplicated layout opens in the configuration
    /// view; a renamed one becomes the selection; a failure keeps the editor open with the
    /// message shown.
    pub fn finish(self, result: Result<String, String>) -> (r: InlineEditFinish)
        ensures
            match result {
                Ok(slug) => {
                    &&& r.edit is None
                    &&& if self.action is Rename {
                        r.transition is None && r.selected == Some(slug)
                    } else {
                        r.transition == Some(ViewTarget::Configuration) && r.selected is None
                    }
                },
                Err(message) => {
                    &&& r.transition is None
                    &&& r.selected is None
                    &&& r.edit matches Some(e) && e.action == self.action && e.value == self.value
                        && e.request_focus && (e.error matches Some(InlineEditError::Store(m)) && m == message)
                },
            },
    {
        match result {
            Ok(slug) => match self.action {
                InlineEditAction::Rename { .. } => InlineEditFinish { edit: None, transition: None, selected: Some(slug) },
                _ => InlineEditFinish { edit: None, transition: Some(ViewTarget::Configuration), selected: None },
            },
            Err(message) => {
                let edit = InlineEdit {
                    action: self.action,
                    value: self.value,
                    error: Some(InlineEditError::Store(message)),
                    request_focus: true,
                };
                InlineEditFinish { edit: Some(edit), transition: None, selected: None }
            },
        }
    }
}

/// Whether `slug` is among the listed slugs.
pub open spec fn spec_listed(slugs: Seq<String>, slug: Seq<char>) -> bool {
    exists|i: int| 0 <= i < slugs.len() && #[trigger] slugs[i]@ == slug
}

/// The first listed slug, if any.
pub open spec fn spec_first(slugs: Seq<String>) -> Option<Seq<char>> {
    if slugs.len() > 0 {
        Some(slugs[0]@)
    } else {
        None
    }
}

/// Keeps the selected layout when the search changes, unless nothing is selected or a new search
/// no longer lists it; then the first result is selected. `results` are the listed slugs.
pub fn reconcile_selection(selected: Option<String>, search_recomputed: bool, results: &[String]) -> (r: Option<
    String,
>)
    ensures
        match selected {
            Some(s) if !search_recomputed || spec_listed(results@, s@) => r == Some(s),
            _ => match (r, spec_first(results@)) {
                (Some(a), Some(b)) => a@ == b,
                (None, None) => true,
                _ => false,
            },
        },
{
    let keep = match &selected {
        Some(s) => {
            if !search_recomputed {
                true
            } else {
                let mut i: usize = 0;
                let mut found = false;
                while i < results.len()
                    invariant
                        i <= results@.len(),
                        found == exists|j: int| 0 <= j < i && #[trigger] results@[j]@ == s@,
                    decreases results.len() - i,
                {
                    if str_equals(results[i].as_str(), s.as_str()) {
                        found = true;
                    }
                    i += 1;
                }
                found
            }
        },
        None => false,
    };
    if keep {
        selected
    } else if results.len() > 0 {
        Some(results[0].clone())
    } else {
        None
    }
}

/// The startup default after toggling it on the layout with slug `slug`: cleared when that
/// layout is the default, that layout otherwise.
pub fn toggled_default(current: Option<&str>, slug: &str) -> (r: Option<String>)
    ensures
        match current {
            Some(c) if c@ == slug@ => r is None,
            _ => r matches Some(s) && s@ == slug@,
        },
{
    let is_default = match current {
        Some(c) => str_equals(c, slug),
        None => false,
    };
    if is_default {
        None
    } else {
        Some(slug.to_owned())
    }
}

/// Returns the label of the button that toggles the startup default on a layout.
pub fn default_button_label(is_default: bool) -> (s: &'static str)
    ensures
        s@ == (if is_default {
            "Clear Default"@
        } else {
            "Set as Default"@
        }),
{
    proof {
        reveal_strlit("Clear Default");
        reveal_strlit("Set as Default");
    }
    if is_default {
        "Clear Default"
    } else {
        "Set as Default"
    }
}

/// Returns the name proposed for a copy of the layout named `name`.
pub fn duplicate_name(name: &str) -> (r: String)
    ensures
        r@ == name@ + " Copy"@,
{
    let mut out: Vec<char> = Vec::new();
    push_str(&mut out, name);
    push_str(&mut out, " Copy");
    string_from_chars(out.as_slice())
}

/// Returns the text of a layout's row in the list: its name, marked when it is active.
pub fn row_label(name: &str, is_active: bool) -> (r: String)
    ensures
        r@ == if is_active {
            name@ + "  • Active"@
        } else {
            name@
        },
{
    let mut out: Vec<char> = Vec::new();
    push_str(&mut out, name);
    if is_active {
        push_str(&mut out, "  • Active");
    }
    proof {
        assert(out@ =~= if is_active {
            name@ + "  • Active"@
        } else {
            name@
        });
    }
    string_from_chars(out.as_slice())
}

} // verus!
