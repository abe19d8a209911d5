use segs::dataflow::{DataKey, SourceKey, StreamKey};
use segs::settings::{integer_range_hint, synchronize_stream_names, ComboBoxOption, WidgetDataSetting};

fn key(n: u64) -> StreamKey {
    StreamKey { source_key: SourceKey(1), data_key: DataKey(n) }
}

#[test]
fn combobox_options_keep_key_and_label() {
    let option = ComboBoxOption::new("mean", "Mean value");
    assert_eq!(option.key, "mean");
    assert_eq!(option.label, "Mean value");
}

#[test]
fn integer_hints_mention_only_finite_bounds() {
    assert_eq!(integer_range_hint(&(i64::MIN..=i64::MAX)), "Enter a whole number");
    assert_eq!(integer_range_hint(&(1..=i64::MAX)), "Enter a value of at least 1");
    assert_eq!(integer_range_hint(&(i64::MIN..=-5)), "Enter a value of at most -5");
    assert_eq!(integer_range_hint(&(-3..=120)), "Enter a value from -3 to 120");
}

#[test]
fn single_stream_is_set_only_when_empty() {
    let mut stream = None;
    let mut setting = WidgetDataSetting::single_stream("value", "Value", &mut stream);
    assert_eq!(setting.id(), "value");
    setting.set_stream_if_empty(key(1));
    setting.set_stream_if_empty(key(2));
    assert_eq!(stream, Some(key(1)));
}

#[test]
fn empty_stream_lists_gain_one_named_stream() {
    let mut streams = Vec::new();
    let mut names = Vec::new();
    let mut setting = WidgetDataSetting::multiple_streams_with_names("lines", "Lines", &mut streams, &mut names);
    setting.set_stream_if_empty(key(3));
    setting.set_stream_if_empty(key(4));
    assert_eq!(streams, vec![key(3)]);
    assert_eq!(names, vec!["Stream".to_owned()]);

    let mut kept = vec![key(5)];
    let mut setting = WidgetDataSetting::multiple_streams("lines", "Lines", &mut kept);
    assert_eq!(setting.id(), "lines");
    setting.set_stream_if_empty(key(6));
    assert_eq!(kept, vec![key(5)]);
}

#[test]
fn stream_names_follow_current_labels() {
    // Labels replace saved names; an unavailable field keeps its saved name, or gets a mark.
    let mut names = vec!["Old roll".to_owned(), "Pitch".to_owned(), "Extra".to_owned(), "Dropped".to_owned()];
    let labels = vec![Some("Roll".to_owned()), None, None];
    synchronize_stream_names(&labels, &mut names);
    assert_eq!(names, ["Roll", "Pitch", "Extra"]);

    let mut names = vec!["Roll".to_owned()];
    let labels = vec![None, Some("Yaw".to_owned()), None];
    synchronize_stream_names(&labels, &mut names);
    assert_eq!(names, ["Roll", "Yaw", "Unavailable field"]);
}
