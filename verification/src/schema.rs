//! The protocol descriptor of a MAVLink profile: message schemas sorted by name, their roles as
//! telemetry streams or telecommands, and the selectable source systems.

use vstd::prelude::*;

use crate::dataflow::{DataKey, MessageKey, SourceKey};
use crate::mavlink::{
    field_keys, spec_field_keys, is_managed_tc_timestamp, make_enum_descriptor, mavtype_to_datatype, spec_enum_describable,
    spec_enum_descriptor_of, spec_enum_value, spec_entry_values, spec_is_managed_tc_timestamp,
    spec_resolve_codes, spec_schema_type, spec_tc_suffix, EnumInfo, MavProfile, MessageInfo,
};
use crate::protocol::{
    lemma_schema_found, spec_schema, FieldDescriptor, MessageDescriptor, ProtocolDescriptor, SourceDescriptor,
};
use crate::text::{
    chars_of, ends_with, lemma_str_less_total, lemma_str_less_transitive, spec_ends_with, spec_str_less,
    str_equals, str_less,
};

verus! {

broadcast use vstd::string::group_string_axioms;

/// The name of the enumeration that lists the selectable source systems.
pub open spec fn spec_sysids_name() -> Seq<char> {
    seq!['S', 'y', 's', 'i', 'd', 's']
}

/// The enumeration registered under `name`: the first entry with that name.
pub open spec fn spec_enum_named(enums: Seq<(String, EnumInfo)>, name: Seq<char>) -> Option<EnumInfo>
    decreases enums.len(),
{
    if enums.len() == 0 {
        None
    } else if enums[0].0@ == name {
        Some(enums[0].1)
    } else {
        spec_enum_named(enums.drop_first(), name)
    }
}

/// Returns the enumeration registered under `name`.
pub fn enum_named<'a>(profile: &'a MavProfile, name: &str) -> (r: Option<&'a EnumInfo>)
    ensures
        match (r, spec_enum_named(profile.enums@, name@)) {
            (Some(a), Some(b)) => *a == b,
            (None, None) => true,
            _ => false,
        },
{
    let ghost enums = profile.enums@;
    let mut i: usize = 0;
    assert(enums.subrange(0, enums.len() as int) =~= enums);
    while i < profile.enums.len()
        invariant
            i <= enums.len(),
            enums == profile.enums@,
            spec_enum_named(enums, name@) == spec_enum_named(
                enums.subrange(i as int, enums.len() as int),
                name@,
            ),
        decreases enums.len() - i,
    {
        let ghost rest = enums.subrange(i as int, enums.len() as int);
        assert(rest.drop_first() =~= enums.subrange(i + 1, enums.len() as int));
        assert(rest[0] == enums[i as int]);
        if str_equals(profile.enums[i].0.as_str(), name) {
            return Some(&profile.enums[i].1);
        }
        i += 1;
    }
    None
}

/// Whether message `i` of the profile comes before message `j`: by name, then by position.
pub open spec fn spec_message_before(msgs: Seq<(u32, MessageInfo)>, i: int, j: int) -> bool {
    ||| spec_str_less(msgs[i].1.name@, msgs[j].1.name@)
    ||| (msgs[i].1.name@ == msgs[j].1.name@ && i < j)
}

/// Whether `order` lists each message position of the profile once, sorted by name and, among
/// equal names, by position.
pub open spec fn spec_name_order(msgs: Seq<(u32, MessageInfo)>, order: Seq<usize>) -> bool {
    &&& order.len() == msgs.len()
    &&& forall|k: int| 0 <= k < order.len() ==> #[trigger] order[k] < msgs.len()
    &&& forall|m: usize| m < msgs.len() ==> #[trigger] order.contains(m)
    &&& forall|a: int, b: int|
        0 <= a < b < order.len() ==> spec_message_before(msgs, order[a] as int, order[b] as int)
}

/// Returns the message positions of the profile sorted by name (a stable sort).
pub fn sort_by_name(profile: &MavProfile) -> (order: Vec<usize>)
    ensures
        spec_name_order(profile.messages@, order@),
{
    let ghost msgs = profile.messages@;
    let n = profile.messages.len();
    let mut names: Vec<Vec<char>> = Vec::new();
    let mut t: usize = 0;
    while t < n
        invariant
            t <= n,
            n == msgs.len(),
            msgs == profile.messages@,
            names@.len() == t,
            forall|q: int| 0 <= q < t ==> (#[trigger] names@[q])@ == msgs[q].1.name@,
        decreases n - t,
    {
        names.push(chars_of(profile.messages[t].1.name.as_str()));
        t += 1;
    }
    let mut order: Vec<usize> = Vec::new();
    let mut i: usize = 0;
    while i < n
        invariant
            i <= n,
            n == msgs.len(),
            names@.len() == n,
            forall|q: int| 0 <= q < n ==> (#[trigger] names@[q])@ == msgs[q].1.name@,
            order@.len() == i,
            forall|k: int| 0 <= k < order@.len() ==> #[trigger] order@[k] < i,
            forall|m: usize| m < i ==> #[trigger] order@.contains(m),
            forall|a: int, b: int|
                0 <= a < b < order@.len() ==> spec_message_before(
                    msgs,
                    order@[a] as int,
                    order@[b] as int,
                ),
        decreases n - i,
    {
        let mut p: usize = 0;
        while p < order.len() && !str_less(names[i].as_slice(), names[order[p]].as_slice())
            invariant
                p <= order@.len(),
                i < n,
                names@.len() == n,
                forall|k: int| 0 <= k < order@.len() ==> #[trigger] order@[k] < i,
                forall|q: int| 0 <= q < p ==> !spec_str_less(
                    msgs[i as int].1.name@,
                    msgs[order@[q] as int].1.name@,
                ),
                forall|q: int| 0 <= q < n ==> (#[trigger] names@[q])@ == msgs[q].1.name@,
            decreases order.len() - p,
        {
            p += 1;
        }
        let ghost old_order = order@;
        proof {
            assert forall|q: int| 0 <= q < p implies spec_message_before(
                msgs,
                old_order[q] as int,
                i as int,
            ) by {
                lemma_str_less_total(msgs[i as int].1.name@, msgs[old_order[q] as int].1.name@);
            }
            if p < old_order.len() {
                assert forall|q: int| p <= q < old_order.len() implies spec_message_before(
                    msgs,
                    i as int,
                    old_order[q] as int,
                ) by {
                    if q > p {
                        let np = msgs[old_order[p as int] as int].1.name@;
                        let nq = msgs[old_order[q] as int].1.name@;
                        assert(spec_message_before(msgs, old_order[p as int] as int, old_order[q] as int));
                        if spec_str_less(np, nq) {
                            lemma_str_less_transitive(msgs[i as int].1.name@, np, nq);
                        }
                    }
                }
            }
        }
        order.insert(p, i);
        proof {
            assert forall|a: int, b: int| 0 <= a < b < order@.len() implies spec_message_before(
                msgs,
                order@[a] as int,
                order@[b] as int,
            ) by {
                if a < p as int && b < p as int {
                    assert(order@[a] == old_order[a] && order@[b] == old_order[b]);
                } else if a < p as int && b == p as int {
                } else if a < p as int {
                    assert(order@[a] == old_order[a] && order@[b] == old_order[b - 1]);
                } else if a == p as int {
                    assert(order@[b] == old_order[b - 1]);
                } else {
                    assert(order@[a] == old_order[a - 1] && order@[b] == old_order[b - 1]);
                }
            }
            assert forall|k: int| 0 <= k < order@.len() implies #[trigger] order@[k] < i + 1 by {
                if k < p as int {
                    assert(order@[k] == old_order[k]);
                } else if k > p as int {
                    assert(order@[k] == old_order[k - 1]);
                }
            }
            assert forall|m: usize| m < i + 1 implies #[trigger] order@.contains(m) by {
                if m == i {
                    assert(order@[p as int] == i);
                } else {
                    assert(old_order.contains(m));
                    let w = choose|w: int| 0 <= w < old_order.len() && old_order[w] == m;
                    if w < p as int {
                        assert(order@[w] == m);
                    } else {
                        assert(order@[w + 1] == m);
                    }
                }
            }
        }
        i += 1;
    }
    order
}

/// The positions, among the first `n`, of the fields of a message that appear in its schema:
/// all but the managed telecommand timestamp.
pub open spec fn spec_kept_fields(info: MessageInfo, n: int) -> Seq<int>
    decreases n,
{
    if n <= 0 {
        Seq::empty()
    } else if spec_is_managed_tc_timestamp(info.name@, info.fields@[n - 1].name@) {
        spec_kept_fields(info, n - 1)
    } else {
        spec_kept_fields(info, n - 1).push(n - 1)
    }
}

/// The enumeration that field `i` of a message takes its values from, when it names one that is
/// registered and yields a descriptor for the field's wire type.
pub open spec fn spec_field_enum(enums: Seq<(String, EnumInfo)>, info: MessageInfo, i: int) -> Option<EnumInfo> {
    let fi = info.fields@[i];
    match fi.enumtype {
        Some(name) => match spec_enum_named(enums, name@) {
            Some(e) => if spec_enum_describable(e, fi.mavtype) {
                Some(e)
            } else {
                None
            },
            None => None,
        },
        None => None,
    }
}

/// Whether `d` describes field `i` of a message under key `key`: an enumerated field with its
/// enumeration's descriptor where one applies, otherwise a plain field, with the field's name and
/// schema type.
pub open spec fn spec_field_descriptor_of(
    enums: Seq<(String, EnumInfo)>,
    info: MessageInfo,
    i: int,
    key: DataKey,
    d: FieldDescriptor,
) -> bool {
    let fi = info.fields@[i];
    match spec_field_enum(enums, info, i) {
        Some(e) => d matches FieldDescriptor::EnumField { name, field_type, descriptor, data_key }
            && name@ == fi.name@ && spec_schema_type(fi.mavtype) == Some(field_type)
            && spec_enum_descriptor_of(descriptor, e, fi.mavtype) && data_key == key,
        None => d matches FieldDescriptor::Field { name, field_type, data_key } && name@ == fi.name@
            && spec_schema_type(fi.mavtype) == Some(field_type) && data_key == key,
    }
}

/// Whether `d` is the schema of a message whose fields have keys `keys`: its name, and a
/// descriptor for each field but the managed timestamp, in wire order.
pub open spec fn spec_message_descriptor_of(
    enums: Seq<(String, EnumInfo)>,
    info: MessageInfo,
    keys: Seq<DataKey>,
    d: MessageDescriptor,
) -> bool {
    let kept = spec_kept_fields(info, info.fields@.len() as int);
    &&& d.name@ == info.name@
    &&& d.fields@.len() == kept.len()
    &&& forall|k: int|
        0 <= k < kept.len() ==> #[trigger] spec_field_descriptor_of(
            enums,
            info,
            kept[k],
            keys[kept[k]],
            d.fields@[k],
        )
}

/// Whether a message is a telecommand: its name ends with the telecommand suffix.
pub open spec fn spec_is_telecommand(info: MessageInfo) -> bool {
    spec_ends_with(info.name@, spec_tc_suffix())
}

/// The keys of the first `n` messages in `order` whose telecommand role is `tc`.
pub open spec fn spec_role_keys(
    msgs: Seq<(u32, MessageInfo)>,
    order: Seq<usize>,
    n: int,
    tc: bool,
) -> Seq<MessageKey>
    decreases n,
{
    if n <= 0 {
        Seq::empty()
    } else {
        let prev = spec_role_keys(msgs, order, n - 1, tc);
        let info = msgs[order[n - 1] as int].1;
        if spec_is_telecommand(info) == tc {
            prev.push(MessageKey(info.id as u64))
        } else {
            prev
        }
    }
}

/// Whether `sources` lists the entries of the source-system enumeration, each with its value as
/// the source key, or is empty when the profile has no such enumeration.
pub open spec fn spec_sources_of(enums: Seq<(String, EnumInfo)>, sources: Seq<SourceDescriptor>) -> bool {
    match spec_enum_named(enums, spec_sysids_name()) {
        Some(e) => sources.len() == e.entries@.len() && forall|k: int|
            0 <= k < sources.len() ==> (#[trigger] sources[k]).name@ == e.entries@[k].name@
                && sources[k].key == SourceKey((e.entries@[k].value->0) as u32),
        None => sources.len() == 0,
    }
}

/// Whether every field of the profile's messages that appears in a schema has a schema type.
pub open spec fn spec_profile_typed(profile: MavProfile) -> bool {
    forall|m: int, i: int|
        0 <= m < profile.messages@.len() && 0 <= i < profile.messages@[m].1.fields@.len()
            && !spec_is_managed_tc_timestamp(
            profile.messages@[m].1.name@,
            (#[trigger] profile.messages@[m].1.fields@[i]).name@,
        ) ==> spec_schema_type(profile.messages@[m].1.fields@[i].mavtype) is Some
}

/// Whether every entry of the profile's source-system enumeration has an explicit value.
pub open spec fn spec_sysids_explicit(profile: MavProfile) -> bool {
    spec_enum_named(profile.enums@, spec_sysids_name()) matches Some(e) ==> forall|k: int|
        0 <= k < e.entries@.len() ==> (#[trigger] e.entries@[k]).value is Some
}

/// Whether `keys` gives each field of each message of the profile its data key, derived from
/// the message identifier, the field's position and its name.
pub open spec fn spec_keys_shape(profile: MavProfile, keys: Seq<Vec<DataKey>>) -> bool {
    &&& keys.len() == profile.messages@.len()
    &&& forall|m: int|
        0 <= m < keys.len() ==> (#[trigger] keys[m])@.len() == profile.messages@[m].1.fields@.len()
            && spec_field_keys(profile.messages@[m].1, keys[m]@)
}

/// Whether `d` is the protocol descriptor of the profile with field keys `keys` and name order
/// `order`: one schema per message in name order, the stream and command roles in that order,
/// and the source systems.
pub open spec fn spec_protocol_of(
    profile: MavProfile,
    keys: Seq<Vec<DataKey>>,
    order: Seq<usize>,
    d: ProtocolDescriptor,
) -> bool {
    let msgs = profile.messages@;
    let n = msgs.len() as int;
    &&& spec_name_order(msgs, order)
    &&& d.message_schemas@.len() == n
    &&& forall|r: int|
        0 <= r < n ==> {
            let m = order[r] as int;
            &&& (#[trigger] d.message_schemas@[r]).0 == MessageKey(msgs[m].1.id as u64)
            &&& spec_message_descriptor_of(profile.enums@, msgs[m].1, keys[m]@, d.message_schemas@[r].1)
        }
    &&& d.stream_messages@ == spec_role_keys(msgs, order, n, false)
    &&& d.command_messages@ == spec_role_keys(msgs, order, n, true)
    &&& spec_sources_of(profile.enums@, d.sources@)
}

proof fn lemma_describable_typed(e: EnumInfo, mavtype: crate::mavlink::MavType)
    requires
        spec_enum_describable(e, mavtype),
    ensures
        spec_schema_type(mavtype) is Some,
{
    let codes = spec_resolve_codes(spec_entry_values(e.entries@))->Some_0.1;
    crate::mavlink::lemma_resolve_codes_len(spec_entry_values(e.entries@));
    assert(spec_enum_value(codes[0], mavtype) is Some);
}

/// Builds the schema of a message whose fields have keys `keys`.
fn message_descriptor(profile: &MavProfile, info: &MessageInfo, keys: &Vec<DataKey>) -> (d:
    MessageDescriptor)
    requires
        keys@.len() == info.fields@.len(),
        forall|i: int|
            0 <= i < info.fields@.len() && !spec_is_managed_tc_timestamp(
                info.name@,
                (#[trigger] info.fields@[i]).name@,
            ) ==> spec_schema_type(info.fields@[i].mavtype) is Some,
    ensures
        spec_message_descriptor_of(profile.enums@, *info, keys@, d),
{
    let ghost enums = profile.enums@;
    let mut fields: Vec<FieldDescriptor> = Vec::new();
    let mut i: usize = 0;
    while i < info.fields.len()
        invariant
            i <= info.fields@.len(),
            enums == profile.enums@,
            keys@.len() == info.fields@.len(),
            forall|j: int|
                0 <= j < info.fields@.len() && !spec_is_managed_tc_timestamp(
                    info.name@,
                    (#[trigger] info.fields@[j]).name@,
                ) ==> spec_schema_type(info.fields@[j].mavtype) is Some,
            fields@.len() == spec_kept_fields(*info, i as int).len(),
            forall|k: int|
                0 <= k < fields@.len() ==> #[trigger] spec_field_descriptor_of(
                    enums,
                    *info,
                    spec_kept_fields(*info, i as int)[k],
                    keys@[spec_kept_fields(*info, i as int)[k]],
                    fields@[k],
                ),
            forall|k: int|
                0 <= k < spec_kept_fields(*info, i as int).len() ==> 0 <= #[trigger] spec_kept_fields(
                    *info,
                    i as int,
                )[k] < i,
        decreases info.fields.len() - i,
    {
        let field = &info.fields[i];
        let ghost kept = spec_kept_fields(*info, i as int);
        let ghost before = fields@;
        if !is_managed_tc_timestamp(info, field.name.as_str()) {
            let data_key = keys[i];
            let mut enum_descriptor = None;
            match &field.enumtype {
                Some(name) => match enum_named(profile, name.as_str()) {
                    Some(mavenum) => {
                        enum_descriptor = make_enum_descriptor(mavenum, &field.mavtype);
                    },
                    None => {},
                },
                None => {},
            }
            let d = match enum_descriptor {
                Some(descriptor) => {
                    proof {
                        let e = spec_field_enum(enums, *info, i as int)->Some_0;
                        lemma_describable_typed(e, field.mavtype);
                    }
                    FieldDescriptor::EnumField {
                        name: field.name.clone(),
                        field_type: mavtype_to_datatype(field.mavtype.clone()),
                        descriptor,
                        data_key,
                    }
                },
                None => FieldDescriptor::Field {
                    name: field.name.clone(),
                    field_type: mavtype_to_datatype(field.mavtype.clone()),
                    data_key,
                },
            };
            assert(spec_field_descriptor_of(enums, *info, i as int, data_key, d));
            fields.push(d);
            proof {
                let kept2 = spec_kept_fields(*info, i + 1);
                assert(kept2 == kept.push(i as int));
                assert forall|k: int| 0 <= k < fields@.len() implies #[trigger] spec_field_descriptor_of(
                    enums,
                    *info,
                    kept2[k],
                    keys@[kept2[k]],
                    fields@[k],
                ) by {
                    if k < before.len() {
                        assert(fields@[k] == before[k]);
                        assert(kept2[k] == kept[k]);
                    }
                }
            }
        }
        i += 1;
    }
    proof {
        assert(i == info.fields@.len());
    }
    MessageDescriptor { name: info.name.clone(), fields }
}

/// Builds the protocol descriptor of a profile whose fields have keys `keys`.
pub fn protocol_descriptor_from_keys(profile: &MavProfile, keys: &Vec<Vec<DataKey>>) -> (d:
    ProtocolDescriptor)
    requires
        spec_keys_shape(*profile, keys@),
        spec_profile_typed(*profile),
        spec_sysids_explicit(*profile),
    ensures
        exists|order: Seq<usize>| spec_protocol_of(*profile, keys@, order, d),
{
    let ghost msgs = profile.messages@;
    let ghost enums = profile.enums@;
    let order = sort_by_name(profile);
    let n = order.len();
    let mut message_schemas: Vec<(MessageKey, MessageDescriptor)> = Vec::new();
    let mut stream_messages: Vec<MessageKey> = Vec::new();
    let mut command_messages: Vec<MessageKey> = Vec::new();
    let mut r: usize = 0;
    while r < n
        invariant
            r <= n,
            n == msgs.len(),
            msgs == profile.messages@,
            enums == profile.enums@,
            spec_name_order(msgs, order@),
            spec_keys_shape(*profile, keys@),
            spec_profile_typed(*profile),
            message_schemas@.len() == r,
            forall|q: int|
                0 <= q < r ==> {
                    let m = order@[q] as int;
                    &&& (#[trigger] message_schemas@[q]).0 == MessageKey(msgs[m].1.id as u64)
                    &&& spec_message_descriptor_of(enums, msgs[m].1, keys@[m]@, message_schemas@[q].1)
                },
            stream_messages@ == spec_role_keys(msgs, order@, r as int, false),
            command_messages@ == spec_role_keys(msgs, order@, r as int, true),
        decreases n - r,
    {
        let m = order[r];
        let info = &profile.messages[m].1;
        proof {
            assert(order@[r as int] < msgs.len());
            assert(keys@[m as int]@.len() == info.fields@.len());
        }
        let descriptor = message_descriptor(profile, info, &keys[m]);
        let key = MessageKey(info.id as u64);
        let ghost before = message_schemas@;
        message_schemas.push((key, descriptor));
        proof {
            assert forall|q: int|
                0 <= q < r + 1 implies {
                    let mm = order@[q] as int;
                    &&& (#[trigger] message_schemas@[q]).0 == MessageKey(msgs[mm].1.id as u64)
                    &&& spec_message_descriptor_of(enums, msgs[mm].1, keys@[mm]@, message_schemas@[q].1)
                } by {
                if q < r {
                    assert(message_schemas@[q] == before[q]);
                }
            }
        }
        proof {
            reveal_strlit("_TC");
            assert("_TC"@ =~= spec_tc_suffix());
        }
        if ends_with(info.name.as_str(), "_TC") {
            command_messages.push(key);
        } else {
            stream_messages.push(key);
        }
        r += 1;
    }
    let mut sources: Vec<SourceDescriptor> = Vec::new();
    proof {
        reveal_strlit("Sysids");
        assert("Sysids"@ =~= spec_sysids_name());
    }
    match enum_named(profile, "Sysids") {
        Some(mavenum) => {
            let mut k: usize = 0;
            while k < mavenum.entries.len()
                invariant
                    k <= mavenum.entries@.len(),
                    spec_enum_named(enums, spec_sysids_name()) == Some(*mavenum),
                    enums == profile.enums@,
                    spec_sysids_explicit(*profile),
                    sources@.len() == k,
                    forall|j: int|
                        0 <= j < k ==> (#[trigger] sources@[j]).name@ == mavenum.entries@[j].name@
                            && sources@[j].key == SourceKey(
                            (mavenum.entries@[j].value->0) as u32,
                        ),
                decreases mavenum.entries.len() - k,
            {
                let entry = &mavenum.entries[k];
                proof {
                    assert(mavenum.entries@[k as int].value is Some);
                }
                let value: u64 = match entry.value {
                    Some(v) => v,
                    None => 0,
                };
                #[verifier::truncate]
                let key = SourceKey(value as u32);
                sources.push(SourceDescriptor { name: entry.name.clone(), key });
                k += 1;
            }
        },
        None => {},
    }
    let d = ProtocolDescriptor { message_schemas, stream_messages, command_messages, sources };
    assert(spec_protocol_of(*profile, keys@, order@, d));
    d
}

/// Builds the protocol descriptor of a MAVLink profile: one schema per message, sorted by name,
/// with each field but the managed telecommand timestamp; messages named with the telecommand
/// suffix as commands and the others as streams, in name order; and the entries of the
/// source-system enumeration as sources.
pub fn make_protocol_descriptor(profile: &MavProfile) -> (d: ProtocolDescriptor)
    requires
        spec_profile_typed(*profile),
        spec_sysids_explicit(*profile),
    ensures
        exists|keys: Seq<Vec<DataKey>>, order: Seq<usize>|
            spec_keys_shape(*profile, keys) && spec_protocol_of(*profile, keys, order, d),
{
    let mut keys: Vec<Vec<DataKey>> = Vec::new();
    let mut m: usize = 0;
    while m < profile.messages.len()
        invariant
            m <= profile.messages@.len(),
            keys@.len() == m,
            forall|q: int|
                0 <= q < m ==> (#[trigger] keys@[q])@.len() == profile.messages@[q].1.fields@.len()
                    && spec_field_keys(profile.messages@[q].1, keys@[q]@),
        decreases profile.messages.len() - m,
    {
        keys.push(field_keys(&profile.messages[m].1));
        m += 1;
    }
    let d = protocol_descriptor_from_keys(profile, &keys);
    let ghost order = choose|order: Seq<usize>| spec_protocol_of(*profile, keys@, order, d);
    assert(spec_keys_shape(*profile, keys@) && spec_protocol_of(*profile, keys@, order, d));
    d
}

#[verifier::spinoff_prover]
proof fn lemma_role_keys_ordered(msgs: Seq<(u32, MessageInfo)>, order: Seq<usize>, n: int, tc: bool)
    requires
        0 <= n <= order.len(),
    ensures
        forall|k: int|
            0 <= k < spec_role_keys(msgs, order, n, tc).len() ==> exists|r: int|
                0 <= r < n && #[trigger] spec_role_keys(msgs, order, n, tc)[k] == MessageKey(
                    msgs[order[r] as int].1.id as u64,
                ) && spec_is_telecommand(msgs[order[r] as int].1) == tc,
    decreases n,
{
    if n > 0 {
        lemma_role_keys_ordered(msgs, order, n - 1, tc);
        let prev = spec_role_keys(msgs, order, n - 1, tc);
        let cur = spec_role_keys(msgs, order, n, tc);
        assert forall|k: int| 0 <= k < cur.len() implies exists|r: int|
            0 <= r < n && #[trigger] cur[k] == MessageKey(msgs[order[r] as int].1.id as u64)
                && spec_is_telecommand(msgs[order[r] as int].1) == tc by {
            if k < prev.len() {
                assert(cur[k] == prev[k]);
                let r = choose|r: int|
                    0 <= r < n - 1 && #[trigger] prev[k] == MessageKey(msgs[order[r] as int].1.id as u64)
                        && spec_is_telecommand(msgs[order[r] as int].1) == tc;
                assert(0 <= r < n && cur[k] == MessageKey(msgs[order[r] as int].1.id as u64));
            } else {
                assert(0 <= n - 1 < n && cur[k] == MessageKey(msgs[order[n - 1] as int].1.id as u64));
            }
        }
    }
}

/// Every stream and command message of a profile's protocol descriptor has a schema.
pub proof fn law_roles_are_described(
    profile: MavProfile,
    keys: Seq<Vec<DataKey>>,
    order: Seq<usize>,
    d: ProtocolDescriptor,
)
    requires
        spec_protocol_of(profile, keys, order, d),
    ensures
        forall|k: int|
            0 <= k < d.stream_messages@.len() ==> #[trigger] spec_schema(
                d.message_schemas@,
                d.stream_messages@[k],
            ) is Some,
        forall|k: int|
            0 <= k < d.command_messages@.len() ==> #[trigger] spec_schema(
                d.message_schemas@,
                d.command_messages@[k],
            ) is Some,
{
    let msgs = profile.messages@;
    let n = msgs.len() as int;
    lemma_role_keys_ordered(msgs, order, n, false);
    lemma_role_keys_ordered(msgs, order, n, true);
    assert forall|k: int| 0 <= k < d.stream_messages@.len() implies #[trigger] spec_schema(
        d.message_schemas@,
        d.stream_messages@[k],
    ) is Some by {
        let r = choose|r: int|
            0 <= r < n && #[trigger] spec_role_keys(msgs, order, n, false)[k] == MessageKey(
                msgs[order[r] as int].1.id as u64,
            ) && spec_is_telecommand(msgs[order[r] as int].1) == false;
        assert(d.message_schemas@[r].0 == d.stream_messages@[k]);
        lemma_schema_found(d.message_schemas@, d.stream_messages@[k], r);
    }
    assert forall|k: int| 0 <= k < d.command_messages@.len() implies #[trigger] spec_schema(
        d.message_schemas@,
        d.command_messages@[k],
    ) is Some by {
        let r = choose|r: int|
            0 <= r < n && #[trigger] spec_role_keys(msgs, order, n, true)[k] == MessageKey(
                msgs[order[r] as int].1.id as u64,
            ) && spec_is_telecommand(msgs[order[r] as int].1) == true;
        assert(d.message_schemas@[r].0 == d.command_messages@[k]);
        lemma_schema_found(d.message_schemas@, d.command_messages@[k], r);
    }
}

} // verus!
