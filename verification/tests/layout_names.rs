use segs::layout::{
    normalized_name, renamed_slug, slug_suffix, slug_with_suffix, validated_display_name, LayoutNameError,
};

#[test]
fn validates_and_normalizes_names() {
    assert_eq!(validated_display_name("  Flight__ Main  ").unwrap(), "Flight__ Main");
    assert_eq!(normalized_name("  Flight__ Main  "), "flight-main");
    assert_eq!(slug_with_suffix("Flight Main", 0x12ab), "flight-main-000012ab");
    assert!(matches!(validated_display_name(""), Err(LayoutNameError::Empty)));
    assert!(matches!(
        validated_display_name("Flight/Primary"),
        Err(LayoutNameError::InvalidCharacter)
    ));
}

#[test]
fn rename_preserves_suffix() {
    assert_eq!(
        renamed_slug("New Name", "old-name-deadbeef").as_deref(),
        Some("new-name-deadbeef")
    );
    assert!(renamed_slug("New Name", "invalid").is_none());
}

#[test]
fn normalizing_twice_changes_nothing() {
    let once = normalized_name("  Main -- Flight__Data ");
    assert_eq!(once, "main-flight-data");
    assert_eq!(normalized_name(&once), once);
}

#[test]
fn suffix_of_a_generated_slug_is_its_hex_suffix() {
    let slug = slug_with_suffix("Flight", 0xdeadbeef);
    assert_eq!(slug, "flight-deadbeef");
    assert_eq!(slug_suffix(&slug), Some("deadbeef"));
    assert_eq!(slug_suffix("no-suffix-here"), None);
    assert_eq!(slug_suffix("flight-DEADBEEF"), None);
}

#[test]
fn renamed_slug_keeps_the_suffix_of_the_old_slug() {
    let old = slug_with_suffix("Old", 7);
    let renamed = renamed_slug("Brand New", &old).unwrap();
    assert_eq!(renamed, "brand-new-00000007");
    assert_eq!(slug_suffix(&renamed), slug_suffix(&old));
}

#[test]
fn whitespace_only_names_are_empty() {
    assert!(matches!(validated_display_name(" \t "), Err(LayoutNameError::Empty)));
    assert_eq!(LayoutNameError::Empty.message(), "Layout names cannot be empty.");
}
