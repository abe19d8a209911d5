//! Widget settings: fixed options of a combobox, the data settings that select streams, and the
//! hints shown beside a bounded numeric field.

use crate::dataflow::StreamKey;
use crate::text::{push_signed_decimal, push_str, spec_signed_decimal, string_from_chars};
use std::ops::RangeInclusive;
use vstd::prelude::*;

verus! {

/// One selectable value displayed by a widget settings combobox.
#[derive(Clone, Copy, Debug, PartialEq, Eq)]
pub struct ComboBoxOption {
    /// Stable value stored by the widget.
    pub key: &'static str,
    /// User-facing option label.
    pub label: &'static str,
}

impl ComboBoxOption {
    /// Creates one selectable combobox option that stores `key` and displays `label`.
    pub fn new(key: &'static str, label: &'static str) -> (o: Self)
        ensures
            o.key == key,
            o.label == label,
    {
        ComboBoxOption { key, label }
    }
}

/// A widget configuration field that selects data streams, editing the widget's own storage.
pub enum WidgetDataSetting<'a> {
    SingleStream { id: &'static str, label: &'static str, stream: &'a mut Option<StreamKey> },
    MultipleStreams {
        id: &'static str,
        label: &'static str,
        streams: &'a mut Vec<StreamKey>,
        names: Option<&'a mut Vec<String>>,
    },
}

impl<'a> WidgetDataSetting<'a> {
    /// Creates a setting that selects one stream, stored in `stream`.
    pub fn single_stream(
        id: &'static str,
        label: &'static str,
        stream: &'a mut Option<StreamKey>,
    ) -> (s: Self)
        ensures
            s matches WidgetDataSetting::SingleStream { id: i, label: l, stream: r } && i == id
                && l == label && *r == *old(stream) && *final(r) == *final(stream),
    {
        WidgetDataSetting::SingleStream { id, label, stream }
    }

    /// Creates a setting that selects several streams, stored in `streams`.
    pub fn multiple_streams(
        id: &'static str,
        label: &'static str,
        streams: &'a mut Vec<StreamKey>,
    ) -> (s: Self)
        ensures
            s matches WidgetDataSetting::MultipleStreams { id: i, label: l, streams: r, names: n }
                && i == id && l == label && *r == *old(streams) && *final(r) == *final(streams)
                && n is None,
    {
        WidgetDataSetting::MultipleStreams { id, label, streams, names: None }
    }

    /// Creates a setting that selects several streams, with a display name kept beside each.
    pub fn multiple_streams_with_names(
        id: &'static str,
        label: &'static str,
        streams: &'a mut Vec<StreamKey>,
        names: &'a mut Vec<String>,
    ) -> (s: Self)
        ensures
            s matches WidgetDataSetting::MultipleStreams { id: i, label: l, streams: r, names: n }
                && i == id && l == label && *r == *old(streams) && *final(r) == *final(streams)
                && (n matches Some(m) && *m == *old(names) && *final(m) == *final(names)),
    {
        WidgetDataSetting::MultipleStreams { id, label, streams, names: Some(names) }
    }

    /// The stable interaction identifier of this setting.
    pub open spec fn spec_id(&self) -> &'static str {
        match self {
            WidgetDataSetting::SingleStream { id, .. } => *id,
            WidgetDataSetting::MultipleStreams { id, .. } => *id,
        }
    }

    /// The user-facing label of this setting.
    pub open spec fn spec_label(&self) -> &'static str {
        match self {
            WidgetDataSetting::SingleStream { label, .. } => *label,
            WidgetDataSetting::MultipleStreams { label, .. } => *label,
        }
    }

    /// Returns the stable interaction identifier of this setting.
    pub fn id(&self) -> (i: &'static str)
        ensures
            i == self.spec_id(),
    {
        match self {
            WidgetDataSetting::SingleStream { id, .. } => id,
            WidgetDataSetting::MultipleStreams { id, .. } => id,
        }
    }

    /// Assigns `key` to this setting when the widget has configured no stream yet: a single
    /// stream that is unset becomes `key`; an empty list becomes `[key]`, and its names, when
    /// kept, gain the name `Stream`. A setting that already has a stream is left as it was.
    pub fn set_stream_if_empty(&mut self, key: StreamKey)
        ensures
            final(self).spec_id() == old(self).spec_id(),
            final(self).spec_label() == old(self).spec_label(),
            match (*old(self), *final(self)) {
                (
                    WidgetDataSetting::SingleStream { stream: s0, .. },
                    WidgetDataSetting::SingleStream { stream: s1, .. },
                ) => *final(s1) == *final(s0) && *s1 == (if s0.is_none() {
                    Some(key)
                } else {
                    *s0
                }),
                (
                    WidgetDataSetting::MultipleStreams { streams: v0, names: n0, .. },
                    WidgetDataSetting::MultipleStreams { streams: v1, names: n1, .. },
                ) => {
                    &&& *final(v1) == *final(v0)
                    &&& v1@ == (if v0@.len() == 0 {
                        seq![key]
                    } else {
                        v0@
                    })
                    &&& match (n0, n1) {
                        (None, None) => true,
                        (Some(a0), Some(a1)) => {
                            &&& *final(a1) == *final(a0)
                            &&& if v0@.len() == 0 {
                                spec_named_one_more(a0@, a1@)
                            } else {
                                *a1 == *a0
                            }
                        },
                        _ => false,
                    }
                },
                _ => false,
            },
    {
        match self {
            WidgetDataSetting::SingleStream { stream, .. } => {
                if stream.is_none() {
                    **stream = Some(key);
                }
            },
            WidgetDataSetting::MultipleStreams { streams, names, .. } => {
                if streams.len() == 0 {
                    streams.push(key);
                    match names {
                        Some(names) => {
                            names.push(stream_name());
                        },
                        None => {},
                    }
                }
            },
        }
    }
}

/// The name given to a stream that a list setting gains when it was empty.
pub open spec fn spec_default_stream_name() -> Seq<char> {
    "Stream"@
}

/// `after` is `before` with one more name, `Stream`, at its end.
pub open spec fn spec_named_one_more(before: Seq<String>, after: Seq<String>) -> bool {
    &&& after.len() == before.len() + 1
    &&& after.subrange(0, before.len() as int) =~= before
    &&& after.last()@ == spec_default_stream_name()
}

fn stream_name() -> (s: String)
    ensures
        s@ == spec_default_stream_name(),
{
    let mut out: Vec<char> = Vec::new();
    push_str(&mut out, "Stream");
    proof {
        reveal_strlit("Stream");
    }
    string_from_chars(out.as_slice())
}

/// `RangeInclusive::start` returns the range's lower bound, the `start` of its view.
pub assume_specification<Idx>[ RangeInclusive::<Idx>::start ](r: &RangeInclusive<Idx>) -> (s: &Idx)
    ensures
        *s == r@.start,
;

/// `RangeInclusive::end` returns the range's upper bound, the `end` of its view.
pub assume_specification<Idx>[ RangeInclusive::<Idx>::end ](r: &RangeInclusive<Idx>) -> (e: &Idx)
    ensures
        *e == r@.end,
;

/// The hint shown beside an integer field whose accepted values run from `minimum` to `maximum`.
pub open spec fn spec_integer_range_hint(minimum: i64, maximum: i64) -> Seq<char> {
    if minimum == i64::MIN && maximum == i64::MAX {
        "Enter a whole number"@
    } else if maximum == i64::MAX {
        "Enter a value of at least "@ + spec_signed_decimal(minimum as int)
    } else if minimum == i64::MIN {
        "Enter a value of at most "@ + spec_signed_decimal(maximum as int)
    } else {
        "Enter a value from "@ + spec_signed_decimal(minimum as int) + " to "@
            + spec_signed_decimal(maximum as int)
    }
}

/// Returns a concise hint for an integer setting limited to `range`; a bound at the edge of
/// `i64` is not mentioned.
pub fn integer_range_hint(range: &RangeInclusive<i64>) -> (hint: String)
    ensures
        hint@ == spec_integer_range_hint(range@.start, range@.end),
{
    let minimum: i64 = *range.start();
    let maximum: i64 = *range.end();
    let mut out: Vec<char> = Vec::new();
    if minimum == i64::MIN && maximum == i64::MAX {
        push_str(&mut out, "Enter a whole number");
    } else if maximum == i64::MAX {
        push_str(&mut out, "Enter a value of at least ");
        push_signed_decimal(&mut out, minimum);
    } else if minimum == i64::MIN {
        push_str(&mut out, "Enter a value of at most ");
        push_signed_decimal(&mut out, maximum);
    } else {
        push_str(&mut out, "Enter a value from ");
        push_signed_decimal(&mut out, minimum);
        push_str(&mut out, " to ");
        push_signed_decimal(&mut out, maximum);
    }
    assert(out@ =~= spec_integer_range_hint(minimum, maximum));
    string_from_chars(out.as_slice())
}


/// The name kept for a stream whose field the adapter no longer describes.
pub open spec fn spec_unavailable_name() -> Seq<char> {
    "Unavailable field"@
}

/// The name kept for the stream at `position` after synchronizing: the current label of its
/// field, otherwise the name saved for it, otherwise the unavailable mark.
pub open spec fn spec_synchronized_name(labels: Seq<Option<String>>, saved: Seq<String>, position: int) -> Seq<char> {
    match labels[position] {
        Some(label) => label@,
        None => if position < saved.len() {
            saved[position]@
        } else {
            spec_unavailable_name()
        },
    }
}

/// Synchronizes the saved display names of a list of streams with the current labels of their
/// fields, without changing the stream order: `labels[k]` is the label of the `k`-th stream's
/// field, `None` when the adapter no longer describes it, whose saved name is then kept. Names
/// past the last stream are dropped.
pub fn synchronize_stream_names(labels: &[Option<String>], names: &mut Vec<String>)
    ensures
        final(names)@.len() == labels@.len(),
        forall|k: int|
            0 <= k < labels@.len() ==> (#[trigger] final(names)@[k])@ == spec_synchronized_name(
                labels@,
                old(names)@,
                k,
            ),
{
    let ghost saved = names@;
    names.truncate(labels.len());
    let mut position: usize = 0;
    while position < labels.len()
        invariant
            position <= labels@.len(),
            names@.len() <= labels@.len(),
            position <= names@.len(),
            forall|k: int| 0 <= k < position ==> (#[trigger] names@[k])@ == spec_synchronized_name(labels@, saved, k),
            forall|k: int| position <= k < names@.len() ==> #[trigger] names@[k] == saved[k],
            names@.len() == position || names@.len() == (if saved.len() < labels@.len() {
                saved.len()
            } else {
                labels@.len()
            }),
            names@.len() > position ==> position < saved.len(),
            names@.len() >= (if saved.len() < labels@.len() {
                saved.len()
            } else {
                labels@.len()
            }),
        decreases labels.len() - position,
    {
        match &labels[position] {
            Some(label) => {
                if position < names.len() {
                    names.set(position, label.clone());
                } else {
                    names.push(label.clone());
                }
            },
            None => {
                if position == names.len() {
                    names.push(unavailable_name());
                }
            },
        }
        position += 1;
    }
}

fn unavailable_name() -> (s: String)
    ensures
        s@ == spec_unavailable_name(),
{
    let mut out: Vec<char> = Vec::new();
    push_str(&mut out, "Unavailable field");
    proof {
        reveal_strlit("Unavailable field");
    }
    string_from_chars(out.as_slice())
}

} // verus!
