use segs::catalog::{layout_file_name, slug_search_step, LayoutCatalog, LayoutEntry, LayoutManagerError, SlugAction, SlugEvent};
use segs::layout::{slug_suffix, slug_with_suffix, LayoutNameError};

fn entry(slug: &str, name: &str) -> LayoutEntry {
    LayoutEntry { slug: slug.to_owned(), name: name.to_owned() }
}

/// Creates a layout the way the application does: validate, draw a free slug, add it as active.
fn create(catalog: &mut LayoutCatalog, name: &str, suffix: u32) -> Result<String, LayoutManagerError> {
    let name = catalog.validate_name(name, None)?;
    let slug = catalog.candidate_slug(&name, suffix).expect("free slug");
    catalog.insert_active(slug.clone(), name);
    Ok(slug)
}

#[test]
fn rejects_exact_names_but_allows_case_variants() {
    let mut catalog = LayoutCatalog::new();
    let first = create(&mut catalog, "Flight", 1).unwrap();

    assert!(matches!(
        create(&mut catalog, "Flight", 2),
        Err(LayoutManagerError::Name(LayoutNameError::Duplicate(_)))
    ));

    let second = create(&mut catalog, "flight", 3).unwrap();
    assert_ne!(first, second);
}

#[test]
fn loads_default_as_active_once() {
    let slug = slug_with_suffix("Default", 0x2a);
    let (catalog, accepted) = LayoutCatalog::load(&[entry(&slug, "Default")], Vec::new(), Some(slug.clone()));
    assert_eq!(accepted, vec![true]);
    assert_eq!(catalog.active_slug(), Some(slug.as_str()));
    assert_eq!(catalog.default_slug(), Some(slug.as_str()));
}

#[test]
fn slug_generation_retries_collisions() {
    let (catalog, _) = LayoutCatalog::load(&[entry("flight-00000007", "Flight")], Vec::new(), None);
    assert_eq!(catalog.candidate_slug("Flight", 7), None);
    assert_eq!(catalog.candidate_slug("Flight", 8).as_deref(), Some("flight-00000008"));
}

#[test]
fn duplicate_names_do_not_hide_unrelated_layouts() {
    let loaded = [
        entry("duplicate-00000001", "Duplicate"),
        entry("duplicate-00000002", "Duplicate"),
        entry("independent-00000003", "Independent"),
    ];
    let (catalog, accepted) = LayoutCatalog::load(&loaded, Vec::new(), None);
    assert_eq!(accepted, vec![true, false, true]);
    assert_eq!(catalog.name_of("duplicate-00000001"), Some("Duplicate"));
    assert_eq!(catalog.name_of("duplicate-00000002"), None);
    assert_eq!(catalog.name_of("independent-00000003"), Some("Independent"));
    assert!(catalog.warnings().iter().any(|warning| warning.contains("duplicate display name")));
}

#[test]
fn catalog_follows_renames_defaults_and_removals() {
    let mut catalog = LayoutCatalog::new();
    let slug = create(&mut catalog, "Flight Main", 0xdeadbeef).unwrap();
    assert_eq!(slug, "flight-main-deadbeef");

    catalog.set_default(Some(&slug)).unwrap();
    assert_eq!(catalog.take_default_update(), Some(Some(slug.clone())));
    assert_eq!(catalog.take_default_update(), None);

    let plan = catalog.plan_rename(&slug, "Flight Primary").unwrap();
    assert!(plan.slug.ends_with(slug_suffix(&slug).unwrap()));
    let renamed = plan.slug.clone();
    catalog.commit_rename(&slug, plan);
    assert!(!catalog.contains(&slug));
    assert_eq!(catalog.name_of(&renamed), Some("Flight Primary"));
    assert_eq!(catalog.active_slug(), Some(renamed.as_str()));
    assert_eq!(catalog.take_default_update(), Some(Some(renamed.clone())));

    catalog.remove(&renamed).unwrap();
    assert!(catalog.active_slug().is_none());
    assert!(catalog.default_slug().is_none());
    assert_eq!(catalog.take_default_update(), Some(None));
}

#[test]
fn setting_the_same_default_records_no_update() {
    let mut catalog = LayoutCatalog::new();
    let slug = create(&mut catalog, "Flight", 1).unwrap();
    catalog.set_default(Some(&slug)).unwrap();
    catalog.take_default_update();
    catalog.set_default(Some(&slug)).unwrap();
    assert_eq!(catalog.take_default_update(), None);
    assert!(matches!(catalog.set_default(Some("missing-00000001")), Err(LayoutManagerError::NotFound(_))));
    catalog.set_default(None).unwrap();
    assert_eq!(catalog.take_default_update(), Some(None));
}

#[test]
fn missing_default_is_dropped_with_a_warning() {
    let (mut catalog, _) =
        LayoutCatalog::load(&[entry("flight-00000001", "Flight")], vec!["unreadable".to_owned()], Some("gone-00000002".to_owned()));
    assert!(catalog.active_slug().is_none());
    assert!(catalog.default_slug().is_none());
    assert_eq!(catalog.warnings().len(), 2);
    assert_eq!(catalog.warnings()[0], "unreadable");
    assert_eq!(catalog.warnings()[1], "The configured default layout no longer exists.");
    assert_eq!(catalog.take_default_update(), Some(None));
}

#[test]
fn invalid_loaded_layouts_are_rejected() {
    let loaded = [entry("flight-00000001", " Flight "), entry("wrong-00000002", "Flight"), entry("flight", "Flight")];
    let (catalog, accepted) = LayoutCatalog::load(&loaded, Vec::new(), None);
    assert_eq!(accepted, vec![false, false, false]);
    assert_eq!(catalog.warnings()[0], "flight-00000001: invalid layout slug.");
}

#[test]
fn rename_errors_name_their_cause() {
    let mut catalog = LayoutCatalog::new();
    let a = create(&mut catalog, "Alpha", 1).unwrap();
    create(&mut catalog, "Beta", 2).unwrap();
    assert!(matches!(
        catalog.plan_rename(&a, "Beta"),
        Err(LayoutManagerError::Name(LayoutNameError::Duplicate(_)))
    ));
    assert!(matches!(catalog.plan_rename("missing-00000009", "Gamma"), Err(LayoutManagerError::NotFound(_))));
    assert!(matches!(catalog.plan_rename(&a, "  "), Err(LayoutManagerError::Name(LayoutNameError::Empty))));
    // Renaming a layout to its own name keeps its slug.
    let same = catalog.plan_rename(&a, "Alpha").unwrap();
    assert_eq!(same.slug, a);
    assert!(matches!(catalog.activate("missing-00000009"), Err(LayoutManagerError::NotFound(_))));
    catalog.activate(&a).unwrap();
    assert_eq!(catalog.active_slug(), Some(a.as_str()));
}

#[test]
fn layout_files_are_named_by_slug() {
    assert_eq!(layout_file_name("flight-00000001"), "flight-00000001.json");
}

#[test]
fn slug_search_checks_files_before_using_a_slug() {
    assert_eq!(slug_search_step(SlugEvent::Drawn(None)), SlugAction::Draw);
    assert_eq!(
        slug_search_step(SlugEvent::Drawn(Some("main-0000002a".to_owned()))),
        SlugAction::CheckFile("main-0000002a".to_owned())
    );
    assert_eq!(
        slug_search_step(SlugEvent::FileChecked { slug: "main-0000002a".to_owned(), exists: true }),
        SlugAction::Draw
    );
    assert_eq!(
        slug_search_step(SlugEvent::FileChecked { slug: "main-0000002a".to_owned(), exists: false }),
        SlugAction::Use("main-0000002a".to_owned())
    );
}
