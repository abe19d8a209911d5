use segs::catalog::LayoutCatalog;
use segs::manager_modal::{
    default_button_label, duplicate_name, reconcile_selection, row_label, toggled_default, typing_error, InlineEdit,
    InlineEditAction, InlineEditStep,
};
use segs::views::{InlineEditError, InlineEditIntent, ViewTarget};

fn catalog_with(names: &[&str]) -> LayoutCatalog {
    let mut catalog = LayoutCatalog::new();
    for (i, name) in names.iter().enumerate() {
        let name = catalog.validate_name(name, None).unwrap();
        let slug = catalog.candidate_slug(&name, i as u32 + 1).unwrap();
        catalog.insert_active(slug, name);
    }
    catalog
}

fn edit(action: InlineEditAction, value: &str) -> InlineEdit {
    InlineEdit { action, value: value.to_owned(), error: None, request_focus: false }
}

#[test]
fn typing_errors_explain_refusals_but_not_blank_values() {
    let catalog = catalog_with(&["Flight"]);
    assert!(typing_error(&catalog, "   ", None).is_none());
    assert!(typing_error(&catalog, "Ground", None).is_none());
    match typing_error(&catalog, " Flight ", None) {
        Some(InlineEditError::Validation(message)) => assert_eq!(message, "A layout named 'Flight' already exists."),
        other => panic!("unexpected {other:?}"),
    }
    // Renaming a layout may keep its own name.
    assert!(typing_error(&catalog, "Flight", Some("flight-00000001")).is_none());
    assert!(matches!(typing_error(&catalog, "Flight/2", None), Some(InlineEditError::Validation(_))));
}

#[test]
fn store_errors_stay_until_the_value_changes() {
    let catalog = catalog_with(&["Flight"]);
    let mut current = edit(InlineEditAction::Create, "Flight");
    current.error = Some(InlineEditError::Store("disk full".to_owned()));
    current.revalidate(&catalog, false);
    assert!(matches!(&current.error, Some(InlineEditError::Store(m)) if m == "disk full"));
    current.revalidate(&catalog, true);
    assert!(matches!(current.error, Some(InlineEditError::Validation(_))));
}

#[test]
fn submissions_perform_keep_or_close() {
    let catalog = catalog_with(&["Flight"]);
    assert!(matches!(
        edit(InlineEditAction::Create, "Ground").step(&catalog, InlineEditIntent::Continue),
        InlineEditStep::Keep(_)
    ));
    assert!(matches!(
        edit(InlineEditAction::Create, "Ground").step(&catalog, InlineEditIntent::Cancel),
        InlineEditStep::Close
    ));
    match edit(InlineEditAction::Create, "  Ground ").step(&catalog, InlineEditIntent::Submit { explicit: false }) {
        InlineEditStep::Perform(_, name) => assert_eq!(name, "Ground"),
        other => panic!("unexpected {other:?}"),
    }
    match edit(InlineEditAction::Create, "Flight").step(&catalog, InlineEditIntent::Submit { explicit: true }) {
        InlineEditStep::Keep(kept) => {
            assert!(kept.request_focus);
            assert!(matches!(kept.error, Some(InlineEditError::Validation(_))));
        }
        other => panic!("unexpected {other:?}"),
    }
    assert!(matches!(
        edit(InlineEditAction::Create, "Flight").step(&catalog, InlineEditIntent::Submit { explicit: false }),
        InlineEditStep::Close
    ));
}

#[test]
fn finished_edits_open_select_or_report() {
    let created = edit(InlineEditAction::Create, "Ground").finish(Ok("ground-00000002".to_owned()));
    assert!(created.edit.is_none());
    assert_eq!(created.transition, Some(ViewTarget::Configuration));
    let renamed = edit(InlineEditAction::Rename { source: "flight-00000001".to_owned() }, "Air")
        .finish(Ok("air-00000001".to_owned()));
    assert_eq!(renamed.transition, None);
    assert_eq!(renamed.selected.as_deref(), Some("air-00000001"));
    let failed = edit(InlineEditAction::Duplicate { source: "flight-00000001".to_owned() }, "Copy")
        .finish(Err("Layout storage error: denied.".to_owned()));
    let kept = failed.edit.unwrap();
    assert!(kept.request_focus);
    assert_eq!(kept.error.unwrap().message(), "Layout storage error: denied.");
}

#[test]
fn selection_follows_the_search() {
    let results = vec!["b-00000002".to_owned(), "c-00000003".to_owned()];
    assert_eq!(reconcile_selection(None, false, &results).as_deref(), Some("b-00000002"));
    assert_eq!(reconcile_selection(Some("a-00000001".into()), false, &results).as_deref(), Some("a-00000001"));
    assert_eq!(reconcile_selection(Some("a-00000001".into()), true, &results).as_deref(), Some("b-00000002"));
    assert_eq!(reconcile_selection(Some("c-00000003".into()), true, &results).as_deref(), Some("c-00000003"));
    assert_eq!(reconcile_selection(Some("a-00000001".into()), true, &[]), None);
}

#[test]
fn manager_labels_and_defaults() {
    assert_eq!(toggled_default(Some("a-00000001"), "a-00000001"), None);
    assert_eq!(toggled_default(Some("a-00000001"), "b-00000002").as_deref(), Some("b-00000002"));
    assert_eq!(toggled_default(None, "b-00000002").as_deref(), Some("b-00000002"));
    assert_eq!(default_button_label(true), "Clear Default");
    assert_eq!(default_button_label(false), "Set as Default");
    assert_eq!(duplicate_name("Flight"), "Flight Copy");
    assert_eq!(row_label("Flight", true), "Flight  • Active");
    assert_eq!(row_label("Flight", false), "Flight");
}
