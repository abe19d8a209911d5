//! The saved-layout catalog: which layouts exist under which slug and display name, which one
//! is active, and which one opens at startup.
//!
//! Display names and slugs are unique in the catalog. Reading and writing layout files is left
//! to the caller, which applies an operation here once its file work succeeded.

use vstd::prelude::*;
use vstd::string::StringExecFns;

use crate::layout::{
    renamed_slug, slug_with_suffix, spec_renamed_slug, spec_slug_with_suffix, spec_validated_display_name,
    validated_display_name, LayoutNameError,
};
use crate::text::str_equals;

verus! {

broadcast use vstd::string::group_string_axioms;

/// A saved layout as the catalog knows it: its slug and display name.
#[derive(Debug, Clone)]
pub struct LayoutEntry {
    pub slug: String,
    pub name: String,
}

/// Why a catalog operation was refused.
#[derive(Debug, Clone)]
pub enum LayoutManagerError {
    /// The display name is not acceptable.
    Name(LayoutNameError),
    /// No layout has this slug.
    NotFound(String),
    /// Another layout already has this slug.
    DuplicateSlug(String),
    /// The slug does not end with a valid suffix.
    InvalidSlug(String),
}

impl LayoutManagerError {
    /// The user-facing description of the error.
    pub open spec fn spec_message(&self) -> Seq<char> {
        match self {
            LayoutManagerError::Name(e) => e.spec_message(),
            LayoutManagerError::NotFound(s) => "Layout '"@ + s@ + "' was not found."@,
            LayoutManagerError::DuplicateSlug(s) => "Layout slug '"@ + s@ + "' already exists."@,
            LayoutManagerError::InvalidSlug(s) => "Layout '"@ + s@ + "' has an invalid slug."@,
        }
    }

    /// Returns the user-facing description of the error.
    pub fn message(&self) -> (m: String)
        ensures
            m@ == self.spec_message(),
    {
        proof {
            reveal_strlit("Layout '");
            reveal_strlit("' was not found.");
            reveal_strlit("Layout slug '");
            reveal_strlit("' already exists.");
            reveal_strlit("' has an invalid slug.");
        }
        match self {
            LayoutManagerError::Name(e) => e.message(),
            LayoutManagerError::NotFound(s) => joined(&joined("Layout '", s.as_str()), "' was not found."),
            LayoutManagerError::DuplicateSlug(s) => joined(&joined("Layout slug '", s.as_str()), "' already exists."),
            LayoutManagerError::InvalidSlug(s) => joined(&joined("Layout '", s.as_str()), "' has an invalid slug."),
        }
    }
}

/// The slug and name views of catalog entries.
pub open spec fn spec_entry_views(entries: Seq<LayoutEntry>) -> Seq<(Seq<char>, Seq<char>)> {
    entries.map_values(|e: LayoutEntry| (e.slug@, e.name@))
}

/// Whether some entry has slug `slug`.
pub open spec fn spec_has_slug(entries: Seq<(Seq<char>, Seq<char>)>, slug: Seq<char>) -> bool {
    exists|i: int| 0 <= i < entries.len() && #[trigger] entries[i].0 == slug
}

/// Whether some entry has display name `name`.
pub open spec fn spec_has_name(entries: Seq<(Seq<char>, Seq<char>)>, name: Seq<char>) -> bool {
    exists|i: int| 0 <= i < entries.len() && #[trigger] entries[i].1 == name
}

/// Whether no two entries share a slug or a display name.
pub open spec fn spec_unique(entries: Seq<(Seq<char>, Seq<char>)>) -> bool {
    forall|i: int, j: int|
        0 <= i < entries.len() && 0 <= j < entries.len() && i != j ==> #[trigger] entries[i].0
            != #[trigger] entries[j].0 && entries[i].1 != entries[j].1
}

/// The layouts, the active one, the startup default and its pending memory update, and the
/// warnings gathered while loading.
#[derive(Debug)]
pub struct LayoutCatalog {
    entries: Vec<LayoutEntry>,
    active: Option<String>,
    default_slug: Option<String>,
    default_update: Option<Option<String>>,
    warnings: Vec<String>,
}

/// The view of an optional string.
pub open spec fn spec_opt_view(s: Option<String>) -> Option<Seq<char>> {
    match s {
        Some(t) => Some(t@),
        None => None,
    }
}

/// The view of an optional pending default update.
pub open spec fn spec_update_view(u: Option<Option<String>>) -> Option<Option<Seq<char>>> {
    match u {
        Some(d) => Some(spec_opt_view(d)),
        None => None,
    }
}

proof fn lemma_unique_at(entries: Seq<(Seq<char>, Seq<char>)>, x: int, y: int)
    requires
        spec_unique(entries),
        0 <= x < entries.len(),
        0 <= y < entries.len(),
        x != y,
    ensures
        entries[x].0 != entries[y].0,
        entries[x].1 != entries[y].1,
{
    assert(entries[x].0 != entries[y].0 && entries[x].1 != entries[y].1);
}

impl LayoutCatalog {
    /// The slug and display name of every layout.
    pub closed spec fn view_entries(&self) -> Seq<(Seq<char>, Seq<char>)> {
        spec_entry_views(self.entries@)
    }

    /// The slug of the active layout.
    pub closed spec fn view_active(&self) -> Option<Seq<char>> {
        spec_opt_view(self.active)
    }

    /// The slug of the layout opened at startup.
    pub closed spec fn view_default(&self) -> Option<Seq<char>> {
        spec_opt_view(self.default_slug)
    }

    /// The change of the startup default not yet stored in application memory.
    pub closed spec fn view_default_update(&self) -> Option<Option<Seq<char>>> {
        spec_update_view(self.default_update)
    }

    /// The warnings gathered while loading.
    pub closed spec fn view_warnings(&self) -> Seq<Seq<char>> {
        self.warnings@.map_values(|w: String| w@)
    }

    /// Slugs and names are unique, and the active layout and the default are in the catalog.
    pub open spec fn wf(&self) -> bool {
        &&& spec_unique(self.view_entries())
        &&& (self.view_active() matches Some(s) ==> spec_has_slug(self.view_entries(), s))
        &&& (self.view_default() matches Some(s) ==> spec_has_slug(self.view_entries(), s))
    }

    /// Every catalog, in every state that its operations reach, is well formed.
    #[verifier::type_invariant]
    closed spec fn well_formed(self) -> bool {
        self.wf()
    }

    /// Creates an empty catalog.
    pub fn new() -> (c: Self)
        ensures
            c.wf(),
            c.view_entries().len() == 0,
            c.view_active() is None,
            c.view_default() is None,
            c.view_default_update() is None,
            c.view_warnings().len() == 0,
    {
        let c = LayoutCatalog {
            entries: Vec::new(),
            active: None,
            default_slug: None,
            default_update: None,
            warnings: Vec::new(),
        };
        assert(c.view_entries() =~= Seq::empty());
        assert(c.view_warnings() =~= Seq::empty());
        c
    }

    /// Returns the position of the layout with slug `slug`.
    fn position(&self, slug: &str) -> (r: Option<usize>)
        ensures
            match r {
                Some(i) => i < self.view_entries().len() && self.view_entries()[i as int].0 == slug@,
                None => !spec_has_slug(self.view_entries(), slug@),
            },
    {
        let mut i: usize = 0;
        while i < self.entries.len()
            invariant
                i <= self.entries@.len(),
                forall|j: int| 0 <= j < i ==> (#[trigger] self.view_entries()[j]).0 != slug@,
            decreases self.entries.len() - i,
        {
            if str_equals(self.entries[i].slug.as_str(), slug) {
                return Some(i);
            }
            i += 1;
        }
        None
    }

    /// Returns whether a layout has slug `slug`.
    pub fn contains(&self, slug: &str) -> (r: bool)
        ensures
            r == spec_has_slug(self.view_entries(), slug@),
    {
        self.position(slug).is_some()
    }

    /// Returns the display name of the layout with slug `slug`.
    pub fn name_of(&self, slug: &str) -> (r: Option<&str>)
        ensures
            match r {
                Some(n) => exists|i: int|
                    0 <= i < self.view_entries().len() && self.view_entries()[i] == (slug@, n@),
                None => !spec_has_slug(self.view_entries(), slug@),
            },
    {
        match self.position(slug) {
            Some(i) => Some(self.entries[i].name.as_str()),
            None => None,
        }
    }

    /// Returns the slug of the active layout.
    pub fn active_slug(&self) -> (r: Option<&str>)
        ensures
            match (r, self.view_active()) {
                (Some(a), Some(b)) => a@ == b,
                (None, None) => true,
                _ => false,
            },
    {
        match &self.active {
            Some(s) => Some(s.as_str()),
            None => None,
        }
    }

    /// Returns the slug of the layout opened at startup.
    pub fn default_slug(&self) -> (r: Option<&str>)
        ensures
            match (r, self.view_default()) {
                (Some(a), Some(b)) => a@ == b,
                (None, None) => true,
                _ => false,
            },
    {
        match &self.default_slug {
            Some(s) => Some(s.as_str()),
            None => None,
        }
    }

    /// Returns the problems found while loading.
    pub fn warnings(&self) -> (r: &[String])
        ensures
            r@.map_values(|w: String| w@) == self.view_warnings(),
    {
        self.warnings.as_slice()
    }
}

/// Whether some layout other than the one with slug `excluding` has display name `name`.
pub open spec fn spec_name_taken(entries: Seq<(Seq<char>, Seq<char>)>, name: Seq<char>, excluding: Seq<char>) -> bool {
    exists|i: int| 0 <= i < entries.len() && #[trigger] entries[i].1 == name && entries[i].0 != excluding
}

/// Whether `r` is the outcome of validating `name` for the catalog, ignoring the layout with slug
/// `excluding`: the trimmed name, or why it is refused (an exact duplicate included).
pub open spec fn spec_validate_outcome(
    entries: Seq<(Seq<char>, Seq<char>)>,
    name: Seq<char>,
    excluding: Seq<char>,
    r: Result<String, LayoutManagerError>,
) -> bool {
    match spec_validated_display_name(name) {
        Ok(t) => if spec_name_taken(entries, t, excluding) {
            r matches Err(LayoutManagerError::Name(LayoutNameError::Duplicate(d))) && d@ == t
        } else {
            r matches Ok(n) && n@ == t
        },
        Err(LayoutNameError::Empty) => r matches Err(LayoutManagerError::Name(LayoutNameError::Empty)),
        Err(_) => r matches Err(LayoutManagerError::Name(LayoutNameError::InvalidCharacter)),
    }
}

/// Whether `after` is `before` with the entry of slug `slug` replaced by `(new_slug, name)`.
pub open spec fn spec_replaced(
    before: Seq<(Seq<char>, Seq<char>)>,
    after: Seq<(Seq<char>, Seq<char>)>,
    slug: Seq<char>,
    new_slug: Seq<char>,
    name: Seq<char>,
) -> bool {
    &&& after.len() == before.len()
    &&& forall|i: int|
        0 <= i < before.len() ==> #[trigger] after[i] == if before[i].0 == slug {
            (new_slug, name)
        } else {
            before[i]
        }
}

impl LayoutCatalog {
    /// Validates a display name and checks it against the names of the other layouts: every
    /// layout when `excluding` is `None`, all but the layout with that slug otherwise.
    pub fn validate_name(&self, name: &str, excluding: Option<&str>) -> (r: Result<String, LayoutManagerError>)
        ensures
            spec_validate_outcome(
                self.view_entries(),
                name@,
                match excluding {
                    Some(e) => e@,
                    None => Seq::empty(),
                },
                r,
            ),
    {
        let valid = match validated_display_name(name) {
            Ok(n) => n,
            Err(LayoutNameError::Empty) => return Err(LayoutManagerError::Name(LayoutNameError::Empty)),
            Err(_) => return Err(LayoutManagerError::Name(LayoutNameError::InvalidCharacter)),
        };
        let ghost excl = match excluding {
            Some(e) => e@,
            None => Seq::<char>::empty(),
        };
        let mut i: usize = 0;
        while i < self.entries.len()
            invariant
                i <= self.entries@.len(),
                excl == (match excluding {
                    Some(e) => e@,
                    None => Seq::<char>::empty(),
                }),
                spec_validated_display_name(name@) matches Ok(t) && t == valid@,
                forall|j: int|
                    0 <= j < i ==> !((#[trigger] self.view_entries()[j]).1 == valid@ && self.view_entries()[j].0
                        != excl),
            decreases self.entries.len() - i,
        {
            let entry = &self.entries[i];
            assert(self.view_entries()[i as int] == (entry.slug@, entry.name@));
            let excluded = match excluding {
                Some(e) => str_equals(entry.slug.as_str(), e),
                None => {
                    proof {
                        reveal_strlit("");
                    }
                    let r = str_equals(entry.slug.as_str(), "");
                    assert(""@ =~= Seq::<char>::empty());
                    r
                },
            };
            if !excluded && str_equals(entry.name.as_str(), valid.as_str()) {
                assert(self.view_entries()[i as int].1 == valid@ && self.view_entries()[i as int].0 != excl);
                let ghost t = valid@;
                let e = LayoutManagerError::Name(LayoutNameError::Duplicate(valid));
                assert(e matches LayoutManagerError::Name(LayoutNameError::Duplicate(d)) && d@ == t);
                return Err(e);
            }
            i += 1;
        }
        Ok(valid)
    }

    /// Makes the layout with slug `slug` the active one.
    pub fn activate(&mut self, slug: &str) -> (r: Result<(), LayoutManagerError>)
        ensures
            final(self).wf(),
            final(self).view_entries() == old(self).view_entries(),
            final(self).view_default() == old(self).view_default(),
            final(self).view_default_update() == old(self).view_default_update(),
            spec_has_slug(old(self).view_entries(), slug@) ==> r is Ok && final(self).view_active()
                == Some(slug@),
            !spec_has_slug(old(self).view_entries(), slug@) ==> (r matches Err(LayoutManagerError::NotFound(s))
                && s@ == slug@) && final(self).view_active() == old(self).view_active(),
    {
        proof {
            use_type_invariant(&*self);
        }
        if !self.contains(slug) {
            return Err(LayoutManagerError::NotFound(slug.to_owned()));
        }
        self.active = Some(slug.to_owned());
        Ok(())
    }

    /// Sets or clears the layout opened at startup. A change is recorded as a pending update of
    /// the application memory; setting the current default again records nothing.
    pub fn set_default(&mut self, slug: Option<&str>) -> (r: Result<(), LayoutManagerError>)
        ensures
            final(self).wf(),
            final(self).view_entries() == old(self).view_entries(),
            final(self).view_active() == old(self).view_active(),
            match slug {
                Some(s) if !spec_has_slug(old(self).view_entries(), s@) => {
                    &&& r matches Err(LayoutManagerError::NotFound(n)) && n@ == s@
                    &&& final(self).view_default() == old(self).view_default()
                    &&& final(self).view_default_update() == old(self).view_default_update()
                },
                _ => {
                    let wanted = match slug {
                        Some(s) => Some(s@),
                        None => None,
                    };
                    &&& r is Ok
                    &&& final(self).view_default() == wanted
                    &&& final(self).view_default_update() == if old(self).view_default() == wanted {
                        old(self).view_default_update()
                    } else {
                        Some(wanted)
                    }
                },
            },
    {
        proof {
            use_type_invariant(&*self);
        }
        if let Some(s) = slug {
            if !self.contains(s) {
                return Err(LayoutManagerError::NotFound(s.to_owned()));
            }
        }
        let same = match (&self.default_slug, slug) {
            (Some(current), Some(s)) => str_equals(current.as_str(), s),
            (None, None) => true,
            _ => false,
        };
        if !same {
            let new_default = match slug {
                Some(s) => Some(s.to_owned()),
                None => None,
            };
            let update = match slug {
                Some(s) => Some(s.to_owned()),
                None => None,
            };
            self.default_slug = new_default;
            self.default_update = Some(update);
        }
        Ok(())
    }

    /// Returns and clears the pending update of the startup default.
    pub fn take_default_update(&mut self) -> (r: Option<Option<String>>)
        ensures
            final(self).wf(),
            spec_update_view(r) == old(self).view_default_update(),
            final(self).view_default_update() is None,
            final(self).view_entries() == old(self).view_entries(),
            final(self).view_active() == old(self).view_active(),
            final(self).view_default() == old(self).view_default(),
    {
        proof {
            use_type_invariant(&*self);
        }
        let r = match &self.default_update {
            Some(Some(d)) => Some(Some(d.clone())),
            Some(None) => Some(None),
            None => None,
        };
        self.default_update = None;
        r
    }

    /// Takes out the layouts, the active layout and the default, leaving an empty catalog with
    /// the same pending update and warnings.
    fn take_parts(&mut self) -> (parts: (Vec<LayoutEntry>, Option<String>, Option<String>))
        ensures
            parts.0@ == old(self).entries@,
            parts.1 == old(self).active,
            parts.2 == old(self).default_slug,
            final(self).entries@.len() == 0,
            final(self).active is None,
            final(self).default_slug is None,
            final(self).default_update == old(self).default_update,
            final(self).warnings == old(self).warnings,
    {
        proof {
            use_type_invariant(&*self);
        }
        let mut active: Option<String> = None;
        let mut default_slug: Option<String> = None;
        let mut entries: Vec<LayoutEntry> = Vec::new();
        std::mem::swap(&mut active, &mut self.active);
        std::mem::swap(&mut default_slug, &mut self.default_slug);
        proof {
            assert(self.view_entries() =~= old(self).view_entries());
        }
        std::mem::swap(&mut entries, &mut self.entries);
        proof {
            assert(self.view_entries() =~= Seq::<(Seq<char>, Seq<char>)>::empty());
        }
        (entries, active, default_slug)
    }

    /// Puts back layouts, an active layout and a default that form a well-formed catalog.
    fn put_parts(&mut self, entries: Vec<LayoutEntry>, active: Option<String>, default_slug: Option<String>)
        requires
            spec_unique(spec_entry_views(entries@)),
            spec_opt_view(active) matches Some(a) ==> spec_has_slug(spec_entry_views(entries@), a),
            spec_opt_view(default_slug) matches Some(d) ==> spec_has_slug(spec_entry_views(entries@), d),
        ensures
            final(self).entries == entries,
            final(self).active == active,
            final(self).default_slug == default_slug,
            final(self).default_update == old(self).default_update,
            final(self).warnings == old(self).warnings,
            final(self).wf(),
    {
        proof {
            use_type_invariant(&*self);
        }
        self.active = None;
        self.default_slug = None;
        self.entries = entries;
        self.active = active;
        self.default_slug = default_slug;
    }

    /// Adds a newly saved layout and makes it the active one.
    pub fn insert_active(&mut self, slug: String, name: String)
        requires
            !spec_has_slug(old(self).view_entries(), slug@),
            !spec_has_name(old(self).view_entries(), name@),
        ensures
            final(self).wf(),
            final(self).view_entries() == old(self).view_entries().push((slug@, name@)),
            final(self).view_active() == Some(slug@),
            final(self).view_default() == old(self).view_default(),
            final(self).view_default_update() == old(self).view_default_update(),
    {
        proof {
            use_type_invariant(&*self);
        }
        let (mut entries, _, default_slug) = self.take_parts();
        let active = slug.clone();
        entries.push(LayoutEntry { slug, name });
        proof {
            let before = old(self).view_entries();
            let after = spec_entry_views(entries@);
            assert(after =~= before.push((slug@, name@)));
            assert(after[before.len() as int].0 == slug@);
            if let Some(d) = spec_opt_view(default_slug) {
                let w = choose|i: int| 0 <= i < before.len() && #[trigger] before[i].0 == d;
                assert(after[w] == before[w]);
            }
            assert forall|i: int, j: int|
                0 <= i < after.len() && 0 <= j < after.len() && i != j implies #[trigger] after[i].0
                != #[trigger] after[j].0 && after[i].1 != after[j].1 by {
                if i < before.len() && j < before.len() {
                    assert(after[i] == before[i] && after[j] == before[j]);
                } else if i < before.len() {
                    assert(after[i] == before[i]);
                } else {
                    assert(after[j] == before[j]);
                }
            }
        }
        self.put_parts(entries, Some(active), default_slug);
        proof {
            assert(self.view_entries() =~= old(self).view_entries().push((slug@, name@)));
        }
    }
}

/// A rename that the catalog accepts: the validated display name and the new slug.
#[derive(Debug, Clone)]
pub struct RenamePlan {
    pub name: String,
    pub slug: String,
}

impl LayoutCatalog {
    /// Plans renaming the layout with slug `slug` to `name`: the name must be valid and not used
    /// by another layout, the layout must exist, its slug must end with a valid suffix, which the
    /// new slug keeps, and no other layout may have the new slug.
    pub fn plan_rename(&self, slug: &str, name: &str) -> (r: Result<RenamePlan, LayoutManagerError>)
        ensures
            match r {
                Ok(plan) => {
                    &&& spec_validate_outcome(self.view_entries(), name@, slug@, Ok(plan.name))
                    &&& spec_has_slug(self.view_entries(), slug@)
                    &&& spec_renamed_slug(plan.name@, slug@) == Some(plan.slug@)
                    &&& (plan.slug@ != slug@ ==> !spec_has_slug(self.view_entries(), plan.slug@))
                },
                Err(e) => match spec_validated_display_name(name@) {
                    Ok(t) => if spec_name_taken(self.view_entries(), t, slug@) {
                        spec_validate_outcome(self.view_entries(), name@, slug@, Err(e))
                    } else if !spec_has_slug(self.view_entries(), slug@) {
                        e matches LayoutManagerError::NotFound(s) && s@ == slug@
                    } else {
                        match spec_renamed_slug(t, slug@) {
                            None => e matches LayoutManagerError::InvalidSlug(s) && s@ == slug@,
                            Some(n) => n != slug@ && spec_has_slug(self.view_entries(), n) && (
                            e matches LayoutManagerError::DuplicateSlug(s) && s@ == n),
                        }
                    },
                    Err(_) => spec_validate_outcome(self.view_entries(), name@, slug@, Err(e)),
                },
            },
    {
        let valid = match self.validate_name(name, Some(slug)) {
            Ok(n) => n,
            Err(e) => return Err(e),
        };
        if !self.contains(slug) {
            return Err(LayoutManagerError::NotFound(slug.to_owned()));
        }
        let new_slug = match renamed_slug(valid.as_str(), slug) {
            Some(s) => s,
            None => return Err(LayoutManagerError::InvalidSlug(slug.to_owned())),
        };
        if !str_equals(new_slug.as_str(), slug) && self.contains(new_slug.as_str()) {
            return Err(LayoutManagerError::DuplicateSlug(new_slug));
        }
        Ok(RenamePlan { name: valid, slug: new_slug })
    }

    /// Applies a rename whose files were written: the layout's entry takes the new slug and
    /// name, and the active layout and the default follow it; a default that moves records a
    /// pending update.
    pub fn commit_rename(&mut self, slug: &str, plan: RenamePlan)
        requires
            spec_has_slug(old(self).view_entries(), slug@),
            plan.slug@ != slug@ ==> !spec_has_slug(old(self).view_entries(), plan.slug@),
            !spec_name_taken(old(self).view_entries(), plan.name@, slug@),
        ensures
            final(self).wf(),
            spec_replaced(old(self).view_entries(), final(self).view_entries(), slug@, plan.slug@, plan.name@),
            final(self).view_active() == if old(self).view_active() == Some(slug@) {
                Some(plan.slug@)
            } else {
                old(self).view_active()
            },
            old(self).view_default() == Some(slug@) ==> final(self).view_default() == Some(plan.slug@)
                && final(self).view_default_update() == Some(Some(plan.slug@)),
            old(self).view_default() != Some(slug@) ==> final(self).view_default() == old(self).view_default()
                && final(self).view_default_update() == old(self).view_default_update(),
    {
        proof {
            use_type_invariant(&*self);
        }
        let ghost before = self.view_entries();
        let i = match self.position(slug) {
            Some(i) => i,
            None => return,
        };
        let new_slug = plan.slug.clone();
        let moves_active = match &self.active {
            Some(a) => str_equals(a.as_str(), slug),
            None => false,
        };
        let moves_default = match &self.default_slug {
            Some(d) => str_equals(d.as_str(), slug),
            None => false,
        };
        let (mut entries, active, default_slug) = self.take_parts();
        entries.set(i, LayoutEntry { slug: plan.slug, name: plan.name });
        let active = if moves_active {
            Some(new_slug.clone())
        } else {
            active
        };
        let default_slug = if moves_default {
            Some(new_slug.clone())
        } else {
            default_slug
        };
        proof {
            let after = spec_entry_views(entries@);
            assert forall|k: int| 0 <= k < before.len() implies #[trigger] after[k] == if before[k].0
                == slug@ {
                (plan.slug@, plan.name@)
            } else {
                before[k]
            } by {
                if k != i {
                    assert(after[k] == before[k]);
                    assert(before[k].0 != slug@) by {
                        assert(before[i as int].0 == slug@);
                    }
                }
            }
            assert(after[i as int].0 == plan.slug@);
            assert forall|a: int, b: int|
                0 <= a < after.len() && 0 <= b < after.len() && a != b implies #[trigger] after[a].0
                != #[trigger] after[b].0 && after[a].1 != after[b].1 by {
                if a != i && b != i {
                    assert(after[a] == before[a] && after[b] == before[b]);
                } else if a == i {
                    assert(after[b] == before[b]);
                    assert(before[b].0 != slug@);
                } else {
                    assert(after[a] == before[a]);
                    assert(before[a].0 != slug@);
                }
            }
            if let Some(x) = spec_opt_view(active) {
                if x != plan.slug@ {
                    let w = choose|w: int| 0 <= w < before.len() && #[trigger] before[w].0 == x;
                    assert(w != i);
                    assert(after[w] == before[w]);
                }
            }
            if let Some(x) = spec_opt_view(default_slug) {
                if x != plan.slug@ {
                    let w = choose|w: int| 0 <= w < before.len() && #[trigger] before[w].0 == x;
                    assert(w != i);
                    assert(after[w] == before[w]);
                }
            }
        }
        self.put_parts(entries, active, default_slug);
        if moves_default {
            self.default_update = Some(Some(new_slug));
        }
    }

    /// Removes a layout whose file was deleted; an active layout is closed and a default is
    /// cleared, with a pending update.
    #[verifier::rlimit(40)]
    pub fn remove(&mut self, slug: &str) -> (r: Result<(), LayoutManagerError>)
        ensures
            final(self).wf(),
            !spec_has_slug(old(self).view_entries(), slug@) ==> (r matches Err(LayoutManagerError::NotFound(s))
                && s@ == slug@) && *final(self) == *old(self),
            spec_has_slug(old(self).view_entries(), slug@) ==> {
                &&& r is Ok
                &&& exists|i: int|
                    0 <= i < old(self).view_entries().len() && old(self).view_entries()[i].0 == slug@
                        && final(self).view_entries() == old(self).view_entries().remove(i)
                &&& final(self).view_active() == if old(self).view_active() == Some(slug@) {
                    None
                } else {
                    old(self).view_active()
                }
                &&& old(self).view_default() == Some(slug@) ==> final(self).view_default() is None
                    && final(self).view_default_update() == Some(None::<Seq<char>>)
                &&& old(self).view_default() != Some(slug@) ==> final(self).view_default() == old(
                    self,
                ).view_default() && final(self).view_default_update() == old(self).view_default_update()
            },
    {
        proof {
            use_type_invariant(&*self);
        }
        let ghost before = self.view_entries();
        assert(spec_unique(before));
        let i = match self.position(slug) {
            Some(i) => i,
            None => return Err(LayoutManagerError::NotFound(slug.to_owned())),
        };
        let clears_active = match &self.active {
            Some(a) => str_equals(a.as_str(), slug),
            None => false,
        };
        let clears_default = match &self.default_slug {
            Some(d) => str_equals(d.as_str(), slug),
            None => false,
        };
        let (mut entries, active, default_slug) = self.take_parts();
        entries.remove(i);
        let active = if clears_active {
            None
        } else {
            active
        };
        let default_slug = if clears_default {
            None
        } else {
            default_slug
        };
        proof {
            let after = spec_entry_views(entries@);
            assert(after =~= before.remove(i as int));
            assert forall|a: int, b: int|
                0 <= a < after.len() && 0 <= b < after.len() && a != b implies #[trigger] after[a].0
                != #[trigger] after[b].0 && after[a].1 != after[b].1 by {
                let a0 = if a < i { a } else { a + 1 };
                let b0 = if b < i { b } else { b + 1 };
                assert(after[a] == before[a0] && after[b] == before[b0]);
                assert(a0 != b0 && 0 <= a0 < before.len() && 0 <= b0 < before.len());
                lemma_unique_at(before, a0, b0);
            }
            if let Some(x) = spec_opt_view(active) {
                let w = choose|w: int| 0 <= w < before.len() && #[trigger] before[w].0 == x;
                assert(w != i);
                let w2 = if w < i { w } else { w - 1 };
                assert(after[w2] == before[w]);
                assert(after[w2].0 == x);
            }
            if let Some(x) = spec_opt_view(default_slug) {
                let w = choose|w: int| 0 <= w < before.len() && #[trigger] before[w].0 == x;
                assert(w != i);
                let w2 = if w < i { w } else { w - 1 };
                assert(after[w2] == before[w]);
                assert(after[w2].0 == x);
            }
            assert(spec_unique(after));
        }
        self.put_parts(entries, active, default_slug);
        if clears_default {
            self.default_update = Some(None);
        }
        Ok(())
    }
}

/// Whether a loaded layout passes its own checks: its display name is valid and already
/// trimmed, and renaming it to that name would keep its slug.
pub open spec fn spec_entry_valid(e: (Seq<char>, Seq<char>)) -> bool {
    &&& spec_validated_display_name(e.1) matches Ok(t) && t == e.1
    &&& spec_renamed_slug(e.1, e.0) == Some(e.0)
}

/// Why a loaded layout is rejected, given the layouts accepted before it: as the message
/// reported for it.
pub open spec fn spec_rejection(prev: Seq<(Seq<char>, Seq<char>)>, e: (Seq<char>, Seq<char>)) -> Option<Seq<char>> {
    if !spec_entry_valid(e) {
        Some(e.0 + ": invalid layout slug."@)
    } else if spec_has_name(prev, e.1) {
        Some(e.0 + ": duplicate display name '"@ + e.1 + "'."@)
    } else if spec_has_slug(prev, e.0) {
        Some(e.0 + ": duplicate layout slug."@)
    } else {
        None
    }
}

/// The layouts accepted among the first `n` loaded ones: each valid one whose name and slug no
/// earlier accepted layout has.
pub open spec fn spec_accepted(loaded: Seq<(Seq<char>, Seq<char>)>, n: int) -> Seq<(Seq<char>, Seq<char>)>
    decreases n,
{
    if n <= 0 {
        Seq::empty()
    } else {
        let prev = spec_accepted(loaded, n - 1);
        if spec_rejection(prev, loaded[n - 1]) is None {
            prev.push(loaded[n - 1])
        } else {
            prev
        }
    }
}

/// The messages reported for the rejected layouts among the first `n` loaded ones, in order.
pub open spec fn spec_rejections(loaded: Seq<(Seq<char>, Seq<char>)>, n: int) -> Seq<Seq<char>>
    decreases n,
{
    if n <= 0 {
        Seq::empty()
    } else {
        let prev = spec_rejections(loaded, n - 1);
        match spec_rejection(spec_accepted(loaded, n - 1), loaded[n - 1]) {
            Some(m) => prev.push(m),
            None => prev,
        }
    }
}

/// The warning reported when the requested startup layout is not in the catalog.
pub open spec fn spec_missing_default_warning() -> Seq<char> {
    "The configured default layout no longer exists."@
}

/// Every layout accepted among the first `n` loaded ones is one of them.
proof fn lemma_accepted_from_loaded(loaded: Seq<(Seq<char>, Seq<char>)>, n: int)
    requires
        0 <= n <= loaded.len(),
    ensures
        forall|a: int|
            #![trigger spec_accepted(loaded, n)[a]]
            0 <= a < spec_accepted(loaded, n).len() ==> exists|j: int|
                0 <= j < n && #[trigger] loaded[j] == spec_accepted(loaded, n)[a],
    decreases n,
{
    if n > 0 {
        lemma_accepted_from_loaded(loaded, n - 1);
        let prev = spec_accepted(loaded, n - 1);
        let cur = spec_accepted(loaded, n);
        assert forall|a: int| #![trigger cur[a]] 0 <= a < cur.len() implies exists|j: int|
            0 <= j < n && #[trigger] loaded[j] == cur[a] by {
            if a < prev.len() {
                assert(cur[a] == prev[a]);
                let j = choose|j: int| 0 <= j < n - 1 && #[trigger] loaded[j] == prev[a];
                assert(loaded[j] == cur[a]);
            } else {
                assert(cur[a] == loaded[n - 1]);
            }
        }
    }
}

/// A duplicate does not hide unrelated layouts: a loaded layout that passes its own checks, and
/// whose name and slug no other loaded layout has, is accepted.
pub proof fn law_unrelated_layouts_are_kept(loaded: Seq<(Seq<char>, Seq<char>)>, k: int)
    requires
        0 <= k < loaded.len(),
        spec_entry_valid(loaded[k]),
        forall|j: int|
            #![trigger loaded[j]]
            0 <= j < loaded.len() && j != k ==> loaded[j].0 != loaded[k].0 && loaded[j].1 != loaded[k].1,
    ensures
        spec_rejection(spec_accepted(loaded, k), loaded[k]) is None,
        spec_has_slug(spec_accepted(loaded, loaded.len() as int), loaded[k].0),
{
    let prev = spec_accepted(loaded, k);
    lemma_accepted_from_loaded(loaded, k);
    if spec_has_name(prev, loaded[k].1) {
        let a = choose|a: int| 0 <= a < prev.len() && #[trigger] prev[a].1 == loaded[k].1;
        let j = choose|j: int| 0 <= j < k && #[trigger] loaded[j] == prev[a];
        assert(loaded[j].1 != loaded[k].1);
    }
    if spec_has_slug(prev, loaded[k].0) {
        let a = choose|a: int| 0 <= a < prev.len() && #[trigger] prev[a].0 == loaded[k].0;
        let j = choose|j: int| 0 <= j < k && #[trigger] loaded[j] == prev[a];
        assert(loaded[j].0 != loaded[k].0);
    }
    assert(spec_accepted(loaded, k + 1) == prev.push(loaded[k]));
    assert(spec_accepted(loaded, k + 1)[prev.len() as int].0 == loaded[k].0);
    lemma_accepted_grows(loaded, k + 1, loaded.len() as int);
    assert(spec_accepted(loaded, loaded.len() as int)[prev.len() as int].0 == loaded[k].0);
}

/// The layouts accepted among the first `m` loaded ones begin with those accepted among the
/// first `n`.
proof fn lemma_accepted_grows(loaded: Seq<(Seq<char>, Seq<char>)>, n: int, m: int)
    requires
        0 <= n <= m <= loaded.len(),
    ensures
        spec_accepted(loaded, n).len() <= spec_accepted(loaded, m).len(),
        forall|a: int|
            0 <= a < spec_accepted(loaded, n).len() ==> #[trigger] spec_accepted(loaded, m)[a] == spec_accepted(
                loaded,
                n,
            )[a],
    decreases m - n,
{
    if n < m {
        lemma_accepted_grows(loaded, n, m - 1);
        let mid = spec_accepted(loaded, m - 1);
        let top = spec_accepted(loaded, m);
        assert forall|a: int| 0 <= a < mid.len() implies #[trigger] top[a] == mid[a] by {}
    }
}

proof fn lemma_accepted_unique(loaded: Seq<(Seq<char>, Seq<char>)>, n: int)
    requires
        0 <= n <= loaded.len(),
    ensures
        spec_unique(spec_accepted(loaded, n)),
    decreases n,
{
    if n > 0 {
        lemma_accepted_unique(loaded, n - 1);
        let prev = spec_accepted(loaded, n - 1);
        let cur = spec_accepted(loaded, n);
        let e = loaded[n - 1];
        if spec_rejection(prev, e) is None {
            assert forall|i: int, j: int|
                0 <= i < cur.len() && 0 <= j < cur.len() && i != j implies #[trigger] cur[i].0
                != #[trigger] cur[j].0 && cur[i].1 != cur[j].1 by {
                if i < prev.len() && j < prev.len() {
                    lemma_unique_at(prev, i, j);
                } else if i < prev.len() {
                    assert(cur[i] == prev[i]);
                    assert(cur[j] == e);
                    if cur[i].0 == e.0 {
                        assert(spec_has_slug(prev, e.0));
                    }
                    if cur[i].1 == e.1 {
                        assert(spec_has_name(prev, e.1));
                    }
                } else {
                    assert(cur[j] == prev[j]);
                    assert(cur[i] == e);
                    if cur[j].0 == e.0 {
                        assert(spec_has_slug(prev, e.0));
                    }
                    if cur[j].1 == e.1 {
                        assert(spec_has_name(prev, e.1));
                    }
                }
            }
        }
    }
}

/// Builds `a + b` as a string.
fn joined(a: &str, b: &str) -> (r: String)
    ensures
        r@ == a@ + b@,
{
    let s = String::from_str(a);
    s.concat(b)
}

/// Returns whether some entry has display name `name`.
fn has_name(entries: &Vec<LayoutEntry>, name: &str) -> (r: bool)
    ensures
        r == spec_has_name(spec_entry_views(entries@), name@),
{
    let mut i: usize = 0;
    while i < entries.len()
        invariant
            i <= entries@.len(),
            forall|j: int| 0 <= j < i ==> (#[trigger] spec_entry_views(entries@)[j]).1 != name@,
        decreases entries.len() - i,
    {
        assert(spec_entry_views(entries@)[i as int] == (entries@[i as int].slug@, entries@[i as int].name@));
        if str_equals(entries[i].name.as_str(), name) {
            assert(spec_entry_views(entries@)[i as int].1 == name@);
            return true;
        }
        i += 1;
    }
    false
}

/// Returns whether some entry has slug `slug`.
fn has_slug(entries: &Vec<LayoutEntry>, slug: &str) -> (r: bool)
    ensures
        r == spec_has_slug(spec_entry_views(entries@), slug@),
{
    let mut i: usize = 0;
    while i < entries.len()
        invariant
            i <= entries@.len(),
            forall|j: int| 0 <= j < i ==> (#[trigger] spec_entry_views(entries@)[j]).0 != slug@,
        decreases entries.len() - i,
    {
        assert(spec_entry_views(entries@)[i as int] == (entries@[i as int].slug@, entries@[i as int].name@));
        if str_equals(entries[i].slug.as_str(), slug) {
            assert(spec_entry_views(entries@)[i as int].0 == slug@);
            return true;
        }
        i += 1;
    }
    false
}

/// Returns the message reported for a rejected loaded layout, if it is rejected.
fn rejection(accepted: &Vec<LayoutEntry>, e: &LayoutEntry) -> (r: Option<String>)
    ensures
        match (r, spec_rejection(spec_entry_views(accepted@), (e.slug@, e.name@))) {
            (Some(a), Some(b)) => a@ == b,
            (None, None) => true,
            _ => false,
        },
{
    proof {
        reveal_strlit(": invalid layout slug.");
        reveal_strlit(": duplicate display name '");
        reveal_strlit("'.");
        reveal_strlit(": duplicate layout slug.");
    }
    let name_ok = match validated_display_name(e.name.as_str()) {
        Ok(n) => str_equals(n.as_str(), e.name.as_str()),
        Err(_) => false,
    };
    let slug_ok = match renamed_slug(e.name.as_str(), e.slug.as_str()) {
        Some(s) => str_equals(s.as_str(), e.slug.as_str()),
        None => false,
    };
    if !(name_ok && slug_ok) {
        return Some(joined(e.slug.as_str(), ": invalid layout slug."));
    }
    if has_name(accepted, e.name.as_str()) {
        let m = joined(e.slug.as_str(), ": duplicate display name '");
        let m = m.concat(e.name.as_str());
        let m = m.concat("'.");
        return Some(m);
    }
    if has_slug(accepted, e.slug.as_str()) {
        return Some(joined(e.slug.as_str(), ": duplicate layout slug."));
    }
    None
}

impl LayoutCatalog {
    /// Builds the catalog from the layouts read from storage, in reading order, after the
    /// warnings of reading them, and the requested startup layout.
    ///
    /// Layouts that fail their own checks, or whose name or slug an earlier layout has, are left
    /// out with a warning each. A requested default that is not in the catalog is dropped with a
    /// warning and a pending update that clears it; otherwise it becomes the active layout.
    /// Returns the catalog and, for each loaded layout, whether it was accepted.
    pub fn load(loaded: &[LayoutEntry], warnings: Vec<String>, requested_default: Option<String>) -> (r: (
        LayoutCatalog,
        Vec<bool>,
    ))
        ensures
            r.0.wf(),
            ({
                let views = spec_entry_views(loaded@);
                let accepted = spec_accepted(views, views.len() as int);
                let requested = spec_opt_view(requested_default);
                let found = requested matches Some(s) && spec_has_slug(accepted, s);
                &&& r.0.view_entries() == accepted
                &&& r.1@.len() == loaded@.len()
                &&& forall|k: int|
                    0 <= k < loaded@.len() ==> #[trigger] r.1@[k] == (spec_rejection(
                        spec_accepted(views, k),
                        views[k],
                    ) is None)
                &&& r.0.view_default() == if found {
                    requested
                } else {
                    None
                }
                &&& r.0.view_active() == r.0.view_default()
                &&& r.0.view_default_update() == if requested is Some && !found {
                    Some(None::<Seq<char>>)
                } else {
                    None
                }
                &&& r.0.view_warnings() == warnings@.map_values(|w: String| w@) + spec_rejections(
                    views,
                    views.len() as int,
                ) + if requested is Some && !found {
                    seq![spec_missing_default_warning()]
                } else {
                    Seq::empty()
                }
            }),
    {
        let ghost views = spec_entry_views(loaded@);
        let ghost base = warnings@.map_values(|w: String| w@);
        let mut entries: Vec<LayoutEntry> = Vec::new();
        let mut flags: Vec<bool> = Vec::new();
        let mut warnings = warnings;
        let mut i: usize = 0;
        while i < loaded.len()
            invariant
                i <= loaded@.len(),
                views == spec_entry_views(loaded@),
                spec_entry_views(entries@) == spec_accepted(views, i as int),
                flags@.len() == i,
                forall|k: int|
                    0 <= k < i ==> #[trigger] flags@[k] == (spec_rejection(spec_accepted(views, k), views[k])
                        is None),
                warnings@.map_values(|w: String| w@) == base + spec_rejections(views, i as int),
            decreases loaded.len() - i,
        {
            let e = &loaded[i];
            assert(views[i as int] == (e.slug@, e.name@));
            match rejection(&entries, e) {
                Some(m) => {
                    let ghost before = warnings@;
                    warnings.push(m);
                    flags.push(false);
                    assert(warnings@.map_values(|w: String| w@) =~= before.map_values(|w: String| w@).push(m@));
                },
                None => {
                    let ghost before = entries@;
                    entries.push(LayoutEntry { slug: e.slug.clone(), name: e.name.clone() });
                    flags.push(true);
                    assert(spec_entry_views(entries@) =~= spec_entry_views(before).push((e.slug@, e.name@)));
                },
            }
            proof {
                assert(base + spec_rejections(views, i + 1) =~= warnings@.map_values(|w: String| w@));
            }
            i += 1;
        }
        proof {
            lemma_accepted_unique(views, views.len() as int);
        }
        let mut default_slug: Option<String> = None;
        let mut default_update: Option<Option<String>> = None;
        match requested_default {
            Some(s) => {
                if has_slug(&entries, s.as_str()) {
                    default_slug = Some(s);
                } else {
                    default_update = Some(None);
                    let ghost before = warnings@;
                    warnings.push(String::from_str("The configured default layout no longer exists."));
                    assert(warnings@.map_values(|w: String| w@) =~= before.map_values(|w: String| w@).push(
                        spec_missing_default_warning(),
                    ));
                }
            },
            None => {},
        }
        let active = match &default_slug {
            Some(s) => Some(s.clone()),
            None => None,
        };
        let catalog = LayoutCatalog { entries, active, default_slug, default_update, warnings };
        proof {
            assert(base + spec_rejections(views, views.len() as int) + Seq::<Seq<char>>::empty() =~= base
                + spec_rejections(views, views.len() as int));
        }
        (catalog, flags)
    }
}

/// Draws a random slug suffix with `rand::random`. Nothing is stated of the value.
#[verifier::external_body]
fn random_suffix() -> (r: u32) {
    rand::random::<u32>()
}

/// Returns the file name under which a layout with slug `slug` is stored.
pub fn layout_file_name(slug: &str) -> (r: String)
    ensures
        r@ == slug@ + ".json"@,
{
    joined(slug, ".json")
}

impl LayoutCatalog {
    /// Returns the slug for `name` with suffix `suffix` when no layout has it yet.
    pub fn candidate_slug(&self, name: &str, suffix: u32) -> (r: Option<String>)
        ensures
            match r {
                Some(s) => s@ == spec_slug_with_suffix(name@, suffix) && !spec_has_slug(self.view_entries(), s@),
                None => spec_has_slug(self.view_entries(), spec_slug_with_suffix(name@, suffix)),
            },
    {
        let slug = slug_with_suffix(name, suffix);
        if self.contains(slug.as_str()) {
            None
        } else {
            Some(slug)
        }
    }

    /// Draws a slug for `name` with a random suffix; `None` when a layout already has it.
    pub fn draw_slug(&self, name: &str) -> (r: Option<String>)
        ensures
            r matches Some(s) ==> (exists|suffix: u32| s@ == spec_slug_with_suffix(name@, suffix))
                && !spec_has_slug(self.view_entries(), s@),
            r is None ==> exists|suffix: u32|
                spec_has_slug(self.view_entries(), #[trigger] spec_slug_with_suffix(name@, suffix)),
    {
        let suffix = random_suffix();
        self.candidate_slug(name, suffix)
    }
}

/// What the search for a fresh slug learns: the outcome of a draw, or whether a layout file
/// already exists for a drawn slug.
#[derive(Debug)]
pub enum SlugEvent {
    Drawn(Option<String>),
    FileChecked { slug: String, exists: bool },
}

/// What the search for a fresh slug does next.
#[derive(Debug, PartialEq, Eq)]
pub enum SlugAction {
    /// Draw another slug.
    Draw,
    /// Ask whether a layout file exists for this slug.
    CheckFile(String),
    /// Use this slug: neither the catalog nor a file has it.
    Use(String),
}

/// The step of the search for a fresh slug that follows `event`: a slug that a layout already
/// has is drawn again, a slug free in the catalog is checked against the files, and one without
/// a file is used.
pub fn slug_search_step(event: SlugEvent) -> (a: SlugAction)
    ensures
        match event {
            SlugEvent::Drawn(None) => a == SlugAction::Draw,
            SlugEvent::Drawn(Some(s)) => a matches SlugAction::CheckFile(c) && c@ == s@,
            SlugEvent::FileChecked { slug, exists } => if exists {
                a == SlugAction::Draw
            } else {
                a matches SlugAction::Use(u) && u@ == slug@
            },
        },
{
    match event {
        SlugEvent::Drawn(None) => SlugAction::Draw,
        SlugEvent::Drawn(Some(s)) => SlugAction::CheckFile(s),
        SlugEvent::FileChecked { slug, exists } => if exists {
            SlugAction::Draw
        } else {
            SlugAction::Use(slug)
        },
    }
}

} // verus!
