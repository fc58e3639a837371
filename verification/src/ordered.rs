//! The `IndexMap`s that the inputs are read into, seen by Verus as the
//! sequences of their entries in insertion order.
use indexmap::IndexMap;
use vstd::prelude::*;

use crate::generate_features::TranslationComment;
use crate::requirements::NameSet;
use crate::models::CoreReq;
use crate::models::CoreFeatures;
use crate::models::CustomFeature;
use crate::models::EmulatorFeatures;
use crate::models::System;
use crate::models::SystemDefault;
use crate::models::SystemFeatures;
use crate::models::YamlValue;

verus! {

/// `indexmap::IndexMap`, opaque to Verus: what a map holds is given by the
/// `*_entries` names below, one per kind of map the inputs use.
#[verifier::external_type_specification]
#[verifier::external_body]
#[verifier::reject_recursive_types(K)]
#[verifier::reject_recursive_types(V)]
#[verifier::reject_recursive_types(S)]
pub struct ExIndexMap<K, V, S>(IndexMap<K, V, S>);

/// The position of the first entry whose key is `k`, or -1.
pub open spec fn key_position<V>(e: Seq<(Seq<char>, V)>, k: Seq<char>) -> int
    decreases e.len(),
{
    if e.len() == 0 {
        -1
    } else if e[0].0 == k {
        0
    } else {
        let p = key_position(e.drop_first(), k);
        if p < 0 {
            -1
        } else {
            p + 1
        }
    }
}

/// The value stored under `k`, if any.
pub open spec fn lookup<V>(e: Seq<(Seq<char>, V)>, k: Seq<char>) -> Option<V> {
    let p = key_position(e, k);
    if p < 0 {
        None
    } else {
        Some(e[p].1)
    }
}

/// `key_position` finds the first entry with the key, and -1 means none has it.
pub proof fn lemma_key_position<V>(e: Seq<(Seq<char>, V)>, k: Seq<char>)
    ensures
        -1 <= key_position(e, k) < e.len(),
        key_position(e, k) >= 0 ==> e[key_position(e, k)].0 == k,
        forall|j: int| 0 <= j < e.len() && (key_position(e, k) < 0 || j < key_position(e, k))
            ==> e[j].0 != k,
    decreases e.len(),
{
    if e.len() > 0 && e[0].0 != k {
        lemma_key_position(e.drop_first(), k);
        assert forall|j: int| 0 <= j < e.len() && (key_position(e, k) < 0 || j < key_position(e, k))
            implies e[j].0 != k by {
            if j > 0 {
                assert(e[j] == e.drop_first()[j - 1]);
            }
        }
    }
}

/// The entries of an `IndexMap` holding the features of each emulator, in their order, keys by view.
pub uninterp spec fn emulator_entries(m: IndexMap<String, EmulatorFeatures>) -> Seq<(Seq<char>, EmulatorFeatures)>;

/// `IndexMap::len` on the features of each emulator.
#[verifier::external_body]
pub(crate) fn emulators_len(m: &IndexMap<String, EmulatorFeatures>) -> (r: usize)
    ensures
        r == emulator_entries(*m).len(),
{
    m.len()
}

/// `IndexMap::get_index` (keys being unique) on the features of each emulator.
#[verifier::external_body]
pub(crate) fn emulators_get_index(m: &IndexMap<String, EmulatorFeatures>, i: usize) -> (r: Option<(&String, &EmulatorFeatures)>)
    ensures
        r is Some <==> i < emulator_entries(*m).len(),
        r matches Some((k, _)) ==> forall|j: int| 0 <= j < emulator_entries(*m).len() && j != i ==> emulator_entries(*m)[j].0 != k@,
        r matches Some((k, v)) ==> k@ == emulator_entries(*m)[i as int].0 && *v == emulator_entries(*m)[i as int].1,
{
    m.get_index(i)
}

/// `IndexMap::get` on the features of each emulator: the value stored under `key`.
#[verifier::external_body]
pub(crate) fn emulators_get<'a>(m: &'a IndexMap<String, EmulatorFeatures>, key: &str) -> (r: Option<&'a EmulatorFeatures>)
    ensures
        r is Some <==> lookup(emulator_entries(*m), key@) is Some,
        r matches Some(v) ==> lookup(emulator_entries(*m), key@) == Some(*v),
{
    m.get(key)
}

/// The entries of an `IndexMap` holding custom features by key, in their order, keys by view.
pub uninterp spec fn cfeature_entries(m: IndexMap<String, CustomFeature>) -> Seq<(Seq<char>, CustomFeature)>;

/// `IndexMap::len` on custom features by key.
#[verifier::external_body]
pub(crate) fn cfeatures_len(m: &IndexMap<String, CustomFeature>) -> (r: usize)
    ensures
        r == cfeature_entries(*m).len(),
{
    m.len()
}

/// `IndexMap::get_index` (keys being unique) on custom features by key.
#[verifier::external_body]
pub(crate) fn cfeatures_get_index(m: &IndexMap<String, CustomFeature>, i: usize) -> (r: Option<(&String, &CustomFeature)>)
    ensures
        r is Some <==> i < cfeature_entries(*m).len(),
        r matches Some((k, _)) ==> forall|j: int| 0 <= j < cfeature_entries(*m).len() && j != i ==> cfeature_entries(*m)[j].0 != k@,
        r matches Some((k, v)) ==> k@ == cfeature_entries(*m)[i as int].0 && *v == cfeature_entries(*m)[i as int].1,
{
    m.get_index(i)
}

/// `IndexMap::get` on custom features by key: the value stored under `key`.
#[verifier::external_body]
pub(crate) fn cfeatures_get<'a>(m: &'a IndexMap<String, CustomFeature>, key: &str) -> (r: Option<&'a CustomFeature>)
    ensures
        r is Some <==> lookup(cfeature_entries(*m), key@) is Some,
        r matches Some(v) ==> lookup(cfeature_entries(*m), key@) == Some(*v),
{
    m.get(key)
}

/// The entries of an `IndexMap` holding the features of each core, in their order, keys by view.
pub uninterp spec fn core_feature_entries(m: IndexMap<String, CoreFeatures>) -> Seq<(Seq<char>, CoreFeatures)>;

/// `IndexMap::len` on the features of each core.
#[verifier::external_body]
pub(crate) fn core_features_len(m: &IndexMap<String, CoreFeatures>) -> (r: usize)
    ensures
        r == core_feature_entries(*m).len(),
{
    m.len()
}

/// `IndexMap::get_index` (keys being unique) on the features of each core.
#[verifier::external_body]
pub(crate) fn core_features_get_index(m: &IndexMap<String, CoreFeatures>, i: usize) -> (r: Option<(&String, &CoreFeatures)>)
    ensures
        r is Some <==> i < core_feature_entries(*m).len(),
        r matches Some((k, _)) ==> forall|j: int| 0 <= j < core_feature_entries(*m).len() && j != i ==> core_feature_entries(*m)[j].0 != k@,
        r matches Some((k, v)) ==> k@ == core_feature_entries(*m)[i as int].0 && *v == core_feature_entries(*m)[i as int].1,
{
    m.get_index(i)
}

/// The entries of an `IndexMap` holding the features of each system, in their order, keys by view.
pub uninterp spec fn system_feature_entries(m: IndexMap<String, SystemFeatures>) -> Seq<(Seq<char>, SystemFeatures)>;

/// `IndexMap::len` on the features of each system.
#[verifier::external_body]
pub(crate) fn system_features_len(m: &IndexMap<String, SystemFeatures>) -> (r: usize)
    ensures
        r == system_feature_entries(*m).len(),
{
    m.len()
}

/// `IndexMap::get_index` (keys being unique) on the features of each system.
#[verifier::external_body]
pub(crate) fn system_features_get_index(m: &IndexMap<String, SystemFeatures>, i: usize) -> (r: Option<(&String, &SystemFeatures)>)
    ensures
        r is Some <==> i < system_feature_entries(*m).len(),
        r matches Some((k, _)) ==> forall|j: int| 0 <= j < system_feature_entries(*m).len() && j != i ==> system_feature_entries(*m)[j].0 != k@,
        r matches Some((k, v)) ==> k@ == system_feature_entries(*m)[i as int].0 && *v == system_feature_entries(*m)[i as int].1,
{
    m.get_index(i)
}

/// The entries of an `IndexMap` holding the choices of a custom feature, in their order, keys by view.
pub uninterp spec fn choice_entries(m: IndexMap<String, YamlValue>) -> Seq<(Seq<char>, YamlValue)>;

/// `IndexMap::len` on the choices of a custom feature.
#[verifier::external_body]
pub(crate) fn choices_len(m: &IndexMap<String, YamlValue>) -> (r: usize)
    ensures
        r == choice_entries(*m).len(),
{
    m.len()
}

/// `IndexMap::get_index` (keys being unique) on the choices of a custom feature.
#[verifier::external_body]
pub(crate) fn choices_get_index(m: &IndexMap<String, YamlValue>, i: usize) -> (r: Option<(&String, &YamlValue)>)
    ensures
        r is Some <==> i < choice_entries(*m).len(),
        r matches Some((k, _)) ==> forall|j: int| 0 <= j < choice_entries(*m).len() && j != i ==> choice_entries(*m)[j].0 != k@,
        r matches Some((k, v)) ==> k@ == choice_entries(*m)[i as int].0 && *v == choice_entries(*m)[i as int].1,
{
    m.get_index(i)
}

/// The entries of an `IndexMap` holding the systems by name, in their order, keys by view.
pub uninterp spec fn system_entries(m: IndexMap<String, System>) -> Seq<(Seq<char>, System)>;

/// `IndexMap::len` on the systems by name.
#[verifier::external_body]
pub(crate) fn systems_len(m: &IndexMap<String, System>) -> (r: usize)
    ensures
        r == system_entries(*m).len(),
{
    m.len()
}

/// `IndexMap::get_index` (keys being unique) on the systems by name.
#[verifier::external_body]
pub(crate) fn systems_get_index(m: &IndexMap<String, System>, i: usize) -> (r: Option<(&String, &System)>)
    ensures
        r is Some <==> i < system_entries(*m).len(),
        r matches Some((k, _)) ==> forall|j: int| 0 <= j < system_entries(*m).len() && j != i ==> system_entries(*m)[j].0 != k@,
        r matches Some((k, v)) ==> k@ == system_entries(*m)[i as int].0 && *v == system_entries(*m)[i as int].1,
{
    m.get_index(i)
}

/// `IndexMap::get` on the systems by name: the value stored under `key`.
#[verifier::external_body]
pub(crate) fn systems_get<'a>(m: &'a IndexMap<String, System>, key: &str) -> (r: Option<&'a System>)
    ensures
        r is Some <==> lookup(system_entries(*m), key@) is Some,
        r matches Some(v) ==> lookup(system_entries(*m), key@) == Some(*v),
{
    m.get(key)
}

/// The entries of an `IndexMap` holding the cores of each emulator of a system, in their order, keys by view.
pub uninterp spec fn emulator_req_entries(m: IndexMap<String, IndexMap<String, CoreReq>>) -> Seq<(Seq<char>, IndexMap<String, CoreReq>)>;

/// `IndexMap::len` on the cores of each emulator of a system.
#[verifier::external_body]
pub(crate) fn emulator_reqs_len(m: &IndexMap<String, IndexMap<String, CoreReq>>) -> (r: usize)
    ensures
        r == emulator_req_entries(*m).len(),
{
    m.len()
}

/// `IndexMap::get_index` (keys being unique) on the cores of each emulator of a system.
#[verifier::external_body]
pub(crate) fn emulator_reqs_get_index(m: &IndexMap<String, IndexMap<String, CoreReq>>, i: usize) -> (r: Option<(&String, &IndexMap<String, CoreReq>)>)
    ensures
        r is Some <==> i < emulator_req_entries(*m).len(),
        r matches Some((k, _)) ==> forall|j: int| 0 <= j < emulator_req_entries(*m).len() && j != i ==> emulator_req_entries(*m)[j].0 != k@,
        r matches Some((k, v)) ==> k@ == emulator_req_entries(*m)[i as int].0 && *v == emulator_req_entries(*m)[i as int].1,
{
    m.get_index(i)
}

/// `IndexMap::get` on the cores of each emulator of a system: the value stored under `key`.
#[verifier::external_body]
pub(crate) fn emulator_reqs_get<'a>(m: &'a IndexMap<String, IndexMap<String, CoreReq>>, key: &str) -> (r: Option<&'a IndexMap<String, CoreReq>>)
    ensures
        r is Some <==> lookup(emulator_req_entries(*m), key@) is Some,
        r matches Some(v) ==> lookup(emulator_req_entries(*m), key@) == Some(*v),
{
    m.get(key)
}

/// The entries of an `IndexMap` holding the requirements of each core, in their order, keys by view.
pub uninterp spec fn core_req_entries(m: IndexMap<String, CoreReq>) -> Seq<(Seq<char>, CoreReq)>;

/// `IndexMap::len` on the requirements of each core.
#[verifier::external_body]
pub(crate) fn core_reqs_len(m: &IndexMap<String, CoreReq>) -> (r: usize)
    ensures
        r == core_req_entries(*m).len(),
{
    m.len()
}

/// `IndexMap::get_index` (keys being unique) on the requirements of each core.
#[verifier::external_body]
pub(crate) fn core_reqs_get_index(m: &IndexMap<String, CoreReq>, i: usize) -> (r: Option<(&String, &CoreReq)>)
    ensures
        r is Some <==> i < core_req_entries(*m).len(),
        r matches Some((k, _)) ==> forall|j: int| 0 <= j < core_req_entries(*m).len() && j != i ==> core_req_entries(*m)[j].0 != k@,
        r matches Some((k, v)) ==> k@ == core_req_entries(*m)[i as int].0 && *v == core_req_entries(*m)[i as int].1,
{
    m.get_index(i)
}

/// `IndexMap::get` on the requirements of each core: the value stored under `key`.
#[verifier::external_body]
pub(crate) fn core_reqs_get<'a>(m: &'a IndexMap<String, CoreReq>, key: &str) -> (r: Option<&'a CoreReq>)
    ensures
        r is Some <==> lookup(core_req_entries(*m), key@) is Some,
        r matches Some(v) ==> lookup(core_req_entries(*m), key@) == Some(*v),
{
    m.get(key)
}

/// The entries of an `IndexMap` holding the default emulator and core of each system, in their order, keys by view.
pub uninterp spec fn default_entries(m: IndexMap<String, SystemDefault>) -> Seq<(Seq<char>, SystemDefault)>;

/// `IndexMap::get` on the default emulator and core of each system: the value stored under `key`.
#[verifier::external_body]
pub(crate) fn defaults_get<'a>(m: &'a IndexMap<String, SystemDefault>, key: &str) -> (r: Option<&'a SystemDefault>)
    ensures
        r is Some <==> lookup(default_entries(*m), key@) is Some,
        r matches Some(v) ==> lookup(default_entries(*m), key@) == Some(*v),
{
    m.get(key)
}


/// What a translation comment says: the emulator and, if any, the core.
pub open spec fn comment_view(c: TranslationComment) -> (Seq<char>, Option<Seq<char>>) {
    (c.emulator@, match c.core {
        Some(s) => Some(s@),
        None => None,
    })
}

/// What a list of translation comments says.
pub open spec fn comments_view(v: Seq<TranslationComment>) -> Seq<(Seq<char>, Option<Seq<char>>)> {
    v.map_values(|c: TranslationComment| comment_view(c))
}

/// The entries of an `IndexMap` from translatable texts to the places that use
/// them, in their order.
pub uninterp spec fn translation_entries(m: IndexMap<String, Vec<TranslationComment>>) -> Seq<
    (Seq<char>, Seq<(Seq<char>, Option<Seq<char>>)>),
>;

/// `IndexMap::new` for translatable texts.
#[verifier::external_body]
pub(crate) fn translations_new() -> (r: IndexMap<String, Vec<TranslationComment>>)
    ensures
        translation_entries(r) == Seq::<(Seq<char>, Seq<(Seq<char>, Option<Seq<char>>)>)>::empty(),
{
    IndexMap::new()
}

/// `IndexMap::len` for translatable texts.
#[verifier::external_body]
pub(crate) fn translations_len(m: &IndexMap<String, Vec<TranslationComment>>) -> (r: usize)
    ensures
        r == translation_entries(*m).len(),
{
    m.len()
}

/// `IndexMap::get_index` (keys being unique) for translatable texts.
#[verifier::external_body]
pub(crate) fn translations_get_index(m: &IndexMap<String, Vec<TranslationComment>>, i: usize) -> (r:
    Option<(&String, &Vec<TranslationComment>)>)
    ensures
        r is Some <==> i < translation_entries(*m).len(),
        r matches Some((k, _)) ==> forall|j: int| 0 <= j < translation_entries(*m).len() && j != i ==> translation_entries(*m)[j].0 != k@,
        r matches Some((k, v)) ==> k@ == translation_entries(*m)[i as int].0 && comments_view(v@)
            == translation_entries(*m)[i as int].1,
{
    m.get_index(i)
}

/// `IndexMap::insert` for translatable texts: an existing key keeps its place
/// and gets the new value, a new key goes last.
#[verifier::external_body]
pub(crate) fn translations_insert(
    m: &mut IndexMap<String, Vec<TranslationComment>>,
    key: String,
    value: Vec<TranslationComment>,
) -> (r: Option<Vec<TranslationComment>>)
    ensures
        ({
            let e = translation_entries(*old(m));
            let p = key_position(e, key@);
            if p < 0 {
                &&& r is None
                &&& translation_entries(*final(m)) == e.push((key@, comments_view(value@)))
            } else {
                &&& r matches Some(o) && comments_view(o@) == e[p].1
                &&& translation_entries(*final(m)) == e.update(p, (key@, comments_view(value@)))
            }
        }),
{
    m.insert(key, value)
}


/// The entries whose text `listed` does not hold, in order.
pub open spec fn without_listed(
    e: Seq<(Seq<char>, Seq<(Seq<char>, Option<Seq<char>>)>)>,
    listed: Set<Seq<char>>,
) -> Seq<(Seq<char>, Seq<(Seq<char>, Option<Seq<char>>)>)>
    decreases e.len(),
{
    if e.len() == 0 {
        Seq::empty()
    } else if listed.contains(e.last().0) {
        without_listed(e.drop_last(), listed)
    } else {
        without_listed(e.drop_last(), listed).push(e.last())
    }
}

/// Whether a text is kept, that is, not in `listed`.
pub(crate) fn unlisted(listed: &NameSet, text: &String) -> (r: bool)
    ensures
        r == !listed@.contains(text@),
{
    !listed.contains(text.as_str())
}

/// `IndexMap::retain` for translatable texts, keeping the texts that `listed`
/// does not hold, in their order.
#[verifier::external_body]
pub(crate) fn translations_retain_unlisted(m: &mut IndexMap<String, Vec<TranslationComment>>, listed: &NameSet)
    ensures
        translation_entries(*final(m)) == without_listed(translation_entries(*old(m)), listed@),
{
    m.retain(|k, _| unlisted(listed, k))
}

/// The entries of an `IndexMap` used as an ordered set of file names.
pub uninterp spec fn source_entries(m: IndexMap<String, ()>) -> Seq<(Seq<char>, ())>;

/// `IndexMap::new` for an ordered set of file names.
#[verifier::external_body]
pub(crate) fn sources_new() -> (r: IndexMap<String, ()>)
    ensures
        source_entries(r) == Seq::<(Seq<char>, ())>::empty(),
{
    IndexMap::new()
}

/// `IndexMap::len` for an ordered set of file names.
#[verifier::external_body]
pub(crate) fn sources_len(m: &IndexMap<String, ()>) -> (r: usize)
    ensures
        r == source_entries(*m).len(),
{
    m.len()
}

/// `IndexMap::get_index` (keys being unique) for an ordered set of file names.
#[verifier::external_body]
pub(crate) fn sources_get_index(m: &IndexMap<String, ()>, i: usize) -> (r: Option<(&String, &())>)
    ensures
        r is Some <==> i < source_entries(*m).len(),
        r matches Some((k, _)) ==> forall|j: int| 0 <= j < source_entries(*m).len() && j != i ==> source_entries(*m)[j].0 != k@,
        r matches Some((k, v)) ==> k@ == source_entries(*m)[i as int].0,
{
    m.get_index(i)
}

/// `IndexMap::insert` for an ordered set of file names: a name already there
/// keeps its place, a new one goes last.
#[verifier::external_body]
pub(crate) fn sources_insert(m: &mut IndexMap<String, ()>, key: String) -> (r: Option<()>)
    ensures
        ({
            let e = source_entries(*old(m));
            let p = key_position(e, key@);
            if p < 0 {
                r is None && source_entries(*final(m)) == e.push((key@, ()))
            } else {
                r is Some && source_entries(*final(m)) == e.update(p, (key@, ()))
            }
        }),
{
    m.insert(key, ())
}

/// The entries of an `IndexMap` from texts to the ordered set of files that
/// hold them.
pub uninterp spec fn key_text_entries(m: IndexMap<String, IndexMap<String, ()>>) -> Seq<
    (Seq<char>, IndexMap<String, ()>),
>;

/// `IndexMap::new` for texts of .keys files.
#[verifier::external_body]
pub(crate) fn key_texts_new() -> (r: IndexMap<String, IndexMap<String, ()>>)
    ensures
        key_text_entries(r) == Seq::<(Seq<char>, IndexMap<String, ()>)>::empty(),
{
    IndexMap::new()
}

/// `IndexMap::len` for texts of .keys files.
#[verifier::external_body]
pub(crate) fn key_texts_len(m: &IndexMap<String, IndexMap<String, ()>>) -> (r: usize)
    ensures
        r == key_text_entries(*m).len(),
{
    m.len()
}

/// `IndexMap::get_index` (keys being unique) for texts of .keys files.
#[verifier::external_body]
pub(crate) fn key_texts_get_index(m: &IndexMap<String, IndexMap<String, ()>>, i: usize) -> (r: Option<
    (&String, &IndexMap<String, ()>),
>)
    ensures
        r is Some <==> i < key_text_entries(*m).len(),
        r matches Some((k, _)) ==> forall|j: int| 0 <= j < key_text_entries(*m).len() && j != i ==> key_text_entries(*m)[j].0 != k@,
        r matches Some((k, v)) ==> k@ == key_text_entries(*m)[i as int].0 && *v == key_text_entries(*m)[i as int].1,
{
    m.get_index(i)
}

/// `IndexMap::insert` for texts of .keys files: an existing text keeps its
/// place and gets the new value, a new text goes last.
#[verifier::external_body]
pub(crate) fn key_texts_insert(
    m: &mut IndexMap<String, IndexMap<String, ()>>,
    key: String,
    value: IndexMap<String, ()>,
) -> (r: Option<IndexMap<String, ()>>)
    ensures
        ({
            let e = key_text_entries(*old(m));
            let p = key_position(e, key@);
            if p < 0 {
                r is None && key_text_entries(*final(m)) == e.push((key@, value))
            } else {
                r == Some(e[p].1) && key_text_entries(*final(m)) == e.update(p, (key@, value))
            }
        }),
{
    m.insert(key, value)
}

} // verus!
