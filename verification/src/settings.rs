//! Environment settings: a map from names to optional values, kept in name order.

use vstd::prelude::*;
use crate::order::{
    bytes_before, bytes_equal, bytes_less, lemma_bytes_less_irreflexive, lemma_bytes_less_total,
    lemma_bytes_less_transitive,
};

verus! {

/// One environment name with its value, or without one when it is unset.
#[derive(Clone, Debug, PartialEq, Eq)]
pub struct Setting {
    /// Environment name.
    pub name: Vec<u8>,
    /// Value, or `None` for a name that is explicitly unset.
    pub value: Option<Vec<u8>>,
}

/// What a setting says.
pub struct SettingView {
    /// Environment name.
    pub name: Seq<u8>,
    /// Value, or `None` for a name that is explicitly unset.
    pub value: Option<Seq<u8>>,
}

/// Bytes of an optional byte string.
pub open spec fn optional_bytes(bytes: Option<Vec<u8>>) -> Option<Seq<u8>> {
    match bytes {
        Some(found) => Some(found@),
        None => None,
    }
}

impl View for Setting {
    type V = SettingView;

    open spec fn view(&self) -> SettingView {
        SettingView { name: self.name@, value: optional_bytes(self.value) }
    }
}

/// Views of a list of settings.
pub open spec fn settings_view(settings: Seq<Setting>) -> Seq<SettingView> {
    settings.map_values(|setting: Setting| setting@)
}

/// Whether the names strictly increase.
pub open spec fn in_name_order(settings: Seq<SettingView>) -> bool {
    forall|i: int, j: int|
        #![trigger settings[i], settings[j]]
        0 <= i < j < settings.len() ==> bytes_less(settings[i].name, settings[j].name)
}

/// The settings with `name` set to `value`.
pub open spec fn with_setting(
    settings: Seq<SettingView>,
    name: Seq<u8>,
    value: Option<Seq<u8>>,
) -> Seq<SettingView>
    decreases settings.len(),
{
    let added = SettingView { name, value };
    if settings.len() == 0 || bytes_less(settings.last().name, name) {
        settings.push(added)
    } else if settings.last().name == name {
        settings.drop_last().push(added)
    } else {
        with_setting(settings.drop_last(), name, value).push(settings.last())
    }
}

/// The value that the settings give to `name`; `None` where they do not speak of it.
pub open spec fn setting_of(settings: Seq<SettingView>, name: Seq<u8>) -> Option<Option<Seq<u8>>>
    decreases settings.len(),
{
    if settings.len() == 0 {
        None
    } else if settings.last().name == name {
        Some(settings.last().value)
    } else {
        setting_of(settings.drop_last(), name)
    }
}

/// Setting a name keeps the names in order.
pub proof fn lemma_with_setting_order(
    settings: Seq<SettingView>,
    name: Seq<u8>,
    value: Option<Seq<u8>>,
)
    requires
        in_name_order(settings),
    ensures
        in_name_order(with_setting(settings, name, value)),
        forall|i: int|
            #![trigger with_setting(settings, name, value)[i]]
            0 <= i < with_setting(settings, name, value).len() ==> with_setting(
                settings,
                name,
                value,
            )[i].name == name || exists|k: int|
                0 <= k < settings.len() && settings[k].name == with_setting(
                    settings,
                    name,
                    value,
                )[i].name,
    decreases settings.len(),
{
    let result = with_setting(settings, name, value);
    if settings.len() == 0 {
    } else if bytes_less(settings.last().name, name) {
        assert forall|i: int, j: int|
            #![trigger result[i], result[j]]
            0 <= i < j < result.len() implies bytes_less(result[i].name, result[j].name) by {
            if j == settings.len() && i < settings.len() - 1 {
                assert(bytes_less(settings[i].name, settings[settings.len() - 1].name));
                lemma_bytes_less_transitive(settings[i].name, settings.last().name, name);
            }
        }
        assert forall|i: int| #![trigger result[i]] 0 <= i < result.len() implies result[i].name
            == name || exists|k: int|
            0 <= k < settings.len() && settings[k].name == result[i].name by {
            if i < settings.len() {
                assert(settings[i].name == result[i].name);
            }
        }
    } else if settings.last().name == name {
        assert forall|i: int, j: int|
            #![trigger result[i], result[j]]
            0 <= i < j < result.len() implies bytes_less(result[i].name, result[j].name) by {
            assert(bytes_less(settings[i].name, settings[j].name));
        }
        assert forall|i: int| #![trigger result[i]] 0 <= i < result.len() implies result[i].name
            == name || exists|k: int|
            0 <= k < settings.len() && settings[k].name == result[i].name by {
            assert(settings[i].name == result[i].name);
        }
    } else {
        let shorter = settings.drop_last();
        let inner = with_setting(shorter, name, value);
        lemma_with_setting_order(shorter, name, value);
        lemma_bytes_less_total(settings.last().name, name);
        assert forall|i: int, j: int|
            #![trigger result[i], result[j]]
            0 <= i < j < result.len() implies bytes_less(result[i].name, result[j].name) by {
            if j == inner.len() {
                assert(result[i] == inner[i]);
                if inner[i].name != name {
                    let k = choose|k: int| 0 <= k < shorter.len() && shorter[k].name == inner[i].name;
                    assert(settings[k] == shorter[k]);
                    assert(bytes_less(settings[k].name, settings[settings.len() - 1].name));
                }
            } else {
                assert(bytes_less(inner[i].name, inner[j].name));
            }
        }
        assert forall|i: int| #![trigger result[i]] 0 <= i < result.len() implies result[i].name
            == name || exists|k: int|
            0 <= k < settings.len() && settings[k].name == result[i].name by {
            if i < inner.len() {
                assert(result[i] == inner[i]);
                if inner[i].name != name {
                    let k = choose|k: int| 0 <= k < shorter.len() && shorter[k].name == inner[i].name;
                    assert(settings[k] == shorter[k]);
                }
            } else {
                assert(settings[settings.len() - 1].name == result[i].name);
            }
        }
    }
}

/// Setting a name changes what the settings say of that name and of no other.
pub proof fn lemma_with_setting_value(
    settings: Seq<SettingView>,
    name: Seq<u8>,
    value: Option<Seq<u8>>,
    other: Seq<u8>,
)
    requires
        in_name_order(settings),
    ensures
        setting_of(with_setting(settings, name, value), other) == if other == name {
            Some(value)
        } else {
            setting_of(settings, other)
        },
    decreases settings.len(),
{
    let result = with_setting(settings, name, value);
    if settings.len() == 0 || bytes_less(settings.last().name, name) {
        assert(result.drop_last() =~= settings);
    } else if settings.last().name == name {
        assert(result.drop_last() =~= settings.drop_last());
    } else {
        lemma_with_setting_value(settings.drop_last(), name, value, other);
        assert(result.drop_last() =~= with_setting(settings.drop_last(), name, value));
    }
}

/// Set `name` to `value`, or mark it as unset.
pub fn assign(settings: &mut Vec<Setting>, name: Vec<u8>, value: Option<Vec<u8>>)
    ensures
        settings_view(final(settings)@) == with_setting(
            settings_view(old(settings)@),
            name@,
            optional_bytes(value),
        ),
{
    let ghost before = settings_view(settings@);
    let ghost added = SettingView { name: name@, value: optional_bytes(value) };
    let mut at: usize = settings.len();
    assert(before.take(at as int) =~= before);
    assert(before.skip(at as int) =~= seq![]);
    while at > 0 && !bytes_before(settings[at - 1].name.as_slice(), name.as_slice())
        && !bytes_equal(settings[at - 1].name.as_slice(), name.as_slice())
        invariant
            at <= settings@.len(),
            settings_view(settings@) == before,
            with_setting(before, name@, added.value) =~= with_setting(
                before.take(at as int),
                name@,
                added.value,
            ) + before.skip(at as int),
        decreases at,
    {
        proof {
            let shorter = before.take(at as int);
            assert(shorter.last() == settings@[at - 1]@);
            assert(shorter.drop_last() =~= before.take(at - 1));
            assert(before.skip(at - 1) =~= seq![before[at - 1]] + before.skip(at as int));
        }
        at = at - 1;
    }
    let ghost shorter = before.take(at as int);
    if at > 0 && bytes_equal(settings[at - 1].name.as_slice(), name.as_slice()) {
        proof {
            assert(shorter.last() == settings@[at - 1]@);
            lemma_bytes_less_irreflexive(name@);
        }
        settings[at - 1] = Setting { name, value };
        proof {
            assert(settings_view(settings@) =~= before.update(at - 1, added));
            assert(before.update(at - 1, added) =~= shorter.drop_last().push(added) + before.skip(
                at as int,
            ));
        }
    } else {
        proof {
            assert(at > 0 ==> shorter.last() == settings@[at - 1]@);
        }
        settings.insert(at, Setting { name, value });
        proof {
            assert(settings_view(settings@) =~= before.insert(at as int, added));
            assert(before.insert(at as int, added) =~= shorter.push(added) + before.skip(at as int));
        }
    }
}

/// The value that the settings give to `name`; `None` where they do not speak of it.
pub fn lookup<'a>(settings: &'a Vec<Setting>, name: &[u8]) -> (found: Option<&'a Setting>)
    ensures
        found is Some == setting_of(settings_view(settings@), name@) is Some,
        found matches Some(setting) ==> setting.name@ == name@ && Some(setting@.value) == setting_of(
            settings_view(settings@),
            name@,
        ),
{
    let ghost all = settings_view(settings@);
    let mut at: usize = settings.len();
    assert(all.take(at as int) =~= all);
    while at > 0
        invariant
            at <= settings@.len(),
            all == settings_view(settings@),
            setting_of(all, name@) == setting_of(all.take(at as int), name@),
        decreases at,
    {
        proof {
            assert(all.take(at as int).last() == settings@[at - 1]@);
            assert(all.take(at as int).drop_last() =~= all.take(at - 1));
        }
        if bytes_equal(settings[at - 1].name.as_slice(), name) {
            return Some(&settings[at - 1]);
        }
        at = at - 1;
    }
    None
}

/// A copy of a byte string.
pub fn copy_bytes(bytes: &[u8]) -> (copy: Vec<u8>)
    ensures
        copy@ == bytes@,
{
    vstd::slice::slice_to_vec(bytes)
}

/// A copy of an optional byte string.
pub fn copy_optional(bytes: &Option<Vec<u8>>) -> (copy: Option<Vec<u8>>)
    ensures
        optional_bytes(copy) == optional_bytes(*bytes),
{
    match bytes {
        Some(found) => Some(copy_bytes(found.as_slice())),
        None => None,
    }
}

/// A copy of a list of settings.
pub fn copy_settings(settings: &Vec<Setting>) -> (copy: Vec<Setting>)
    ensures
        settings_view(copy@) == settings_view(settings@),
{
    let mut copy: Vec<Setting> = Vec::new();
    let mut at: usize = 0;
    while at < settings.len()
        invariant
            at <= settings@.len(),
            settings_view(copy@) == settings_view(settings@).take(at as int),
        decreases settings.len() - at,
    {
        let ghost before = settings_view(copy@);
        copy.push(
            Setting {
                name: copy_bytes(settings[at].name.as_slice()),
                value: copy_optional(&settings[at].value),
            },
        );
        proof {
            assert(settings_view(copy@) =~= before.push(settings@[at as int]@));
            assert(settings_view(settings@).take(at + 1) =~= settings_view(settings@).take(
                at as int,
            ).push(settings_view(settings@)[at as int]));
        }
        at = at + 1;
    }
    assert(settings_view(settings@).take(at as int) =~= settings_view(settings@));
    copy
}

/// A copy of a list of byte strings.
pub fn copy_strings(strings: &Vec<Vec<u8>>) -> (copy: Vec<Vec<u8>>)
    ensures
        crate::tree::byte_strings(copy@) == crate::tree::byte_strings(strings@),
{
    let mut copy: Vec<Vec<u8>> = Vec::new();
    let ghost all = crate::tree::byte_strings(strings@);
    let mut at: usize = 0;
    while at < strings.len()
        invariant
            at <= strings@.len(),
            all == crate::tree::byte_strings(strings@),
            crate::tree::byte_strings(copy@) == all.take(at as int),
        decreases strings.len() - at,
    {
        let ghost before = crate::tree::byte_strings(copy@);
        copy.push(copy_bytes(strings[at].as_slice()));
        proof {
            assert(crate::tree::byte_strings(copy@) =~= before.push(all[at as int]));
            assert(all.take(at + 1) =~= all.take(at as int).push(all[at as int]));
        }
        at = at + 1;
    }
    assert(all.take(at as int) =~= all);
    copy
}

} // verus!
