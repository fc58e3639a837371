//! es_features.json (the schema REG-Station reads) and es_systems.json, built
//! as typed documents whose fields stand for the JSON keys in their order.
use indexmap::IndexMap;
use vstd::prelude::*;
use vstd::string::*;

use crate::generate_features::csv;
use crate::generate_systems::core_names;
use crate::generate_systems::default_core_of;
use crate::generate_systems::default_emulator_of;
use crate::generate_systems::dotted_lower;
use crate::generate_systems::dotted_lower_list;
use crate::generate_systems::emulator_names;
use crate::generate_systems::entry_keys;
use crate::generate_systems::is_default_core;
use crate::generate_systems::opt_ref_view;
use crate::generate_systems::opt_ref_view_eq;
use crate::generate_systems::or_default;
use crate::generate_systems::pick_default;
use crate::generate_systems::system_names;
use crate::generate_systems::system_path;
use crate::generate_systems::system_path_text;
use crate::generate_systems::text_or;
use crate::models::CoreReq;
use crate::models::System;
use crate::models::SystemDefault;
use crate::ordered::core_req_entries;
use crate::ordered::core_reqs_get;
use crate::ordered::default_entries;
use crate::ordered::defaults_get;
use crate::ordered::emulator_req_entries;
use crate::ordered::emulator_reqs_get;
use crate::ordered::system_entries;
use crate::ordered::systems_get;
use crate::requirements::is_valid;
use crate::requirements::requirements_met;
use crate::requirements::NameSet;
use crate::text::sort_strings;
use crate::text::sorted_strs;
use crate::text::views;
use crate::models::opt_view;
use crate::models::yaml_text;
use crate::models::yaml_value_to_string;
use crate::models::CoreFeatures;
use crate::models::CustomFeature;
use crate::models::EmulatorFeatures;
use crate::models::SystemFeatures;
use crate::models::YamlValue;
use crate::ordered::cfeature_entries;
use crate::ordered::cfeatures_get;
use crate::ordered::cfeatures_get_index;
use crate::ordered::cfeatures_len;
use crate::ordered::choice_entries;
use crate::ordered::choices_get_index;
use crate::ordered::choices_len;
use crate::ordered::core_feature_entries;
use crate::ordered::core_features_get_index;
use crate::ordered::core_features_len;
use crate::ordered::emulator_entries;
use crate::ordered::emulators_get;
use crate::ordered::emulators_get_index;
use crate::ordered::emulators_len;
use crate::ordered::lookup;
use crate::ordered::system_feature_entries;
use crate::ordered::system_features_get_index;
use crate::ordered::system_features_len;
use crate::requirements::arch_ok;
use crate::requirements::arch_valid;
use crate::text::join;
use crate::text::parse_i64;
use crate::text::parse_i64_spec;
use crate::text::str_eq;

use crate::laws::lemma_emulators_text_iff_offering;

verus! {

/// A choice of a custom feature: `{ name, value? }`.
pub struct ChoiceJson {
    pub name: String,
    pub value: Option<String>,
}

/// The `order` of a custom feature: a number when it reads as one.
pub enum OrderJson {
    Int(i64),
    Text(String),
}

/// A custom feature definition: `{ name, description?, submenu?, preset?,
/// preset-parameters?, group?, order?, value?, choices? }`.
pub struct FeatureJson {
    pub name: String,
    pub description: Option<String>,
    pub submenu: Option<String>,
    pub preset: Option<String>,
    pub preset_parameters: Option<String>,
    pub group: Option<String>,
    pub order: Option<OrderJson>,
    pub value: Option<String>,
    pub choices: Option<Vec<ChoiceJson>>,
}

/// A reference to a shared feature: `{ value }`.
pub struct SharedRefJson {
    pub value: String,
}

/// A system within an emulator or a core.
pub struct SystemFeaturesJson {
    pub name: String,
    pub features: Option<String>,
    pub shared_features: Option<Vec<SharedRefJson>>,
    pub custom_features: Option<Vec<FeatureJson>>,
}

/// A core of an emulator.
pub struct CoreFeaturesJson {
    pub name: String,
    pub features: Option<String>,
    pub shared_features: Option<Vec<SharedRefJson>>,
    pub custom_features: Option<Vec<FeatureJson>>,
    pub systems: Option<Vec<SystemFeaturesJson>>,
}

/// An emulator.
pub struct EmulatorFeaturesJson {
    pub name: String,
    pub features: Option<String>,
    pub shared_features: Option<Vec<SharedRefJson>>,
    pub custom_features: Option<Vec<FeatureJson>>,
    pub cores: Option<Vec<CoreFeaturesJson>>,
    pub systems: Option<Vec<SystemFeaturesJson>>,
}

/// The top-level `sharedFeatures`: definitions only.
pub struct SharedSectionJson {
    pub custom_features: Vec<FeatureJson>,
}

/// The top-level `globalFeatures`: shared references and definitions.
pub struct GlobalSectionJson {
    pub shared_features: Option<Vec<SharedRefJson>>,
    pub custom_features: Option<Vec<FeatureJson>>,
}

/// The es_features.json document.
pub struct FeaturesJson {
    pub shared_features: Option<SharedSectionJson>,
    pub global_features: Option<GlobalSectionJson>,
    pub emulators: Option<Vec<EmulatorFeaturesJson>>,
}

/// An optional text, absent when it is empty.
pub open spec fn non_empty_view(o: Option<String>) -> Option<Seq<char>> {
    match o {
        Some(s) => if s@.len() > 0 {
            Some(s@)
        } else {
            None
        },
        None => None,
    }
}

/// An optional string, absent when it is empty.
fn non_empty(opt: &Option<String>) -> (r: Option<String>)
    ensures
        opt_view(r) == non_empty_view(*opt),
{
    match opt {
        Some(s) => if s.as_str().is_empty() {
            None
        } else {
            Some(s.clone())
        },
        None => None,
    }
}

/// A text, absent when it is empty.
pub open spec fn non_empty_seq(s: Seq<char>) -> Option<Seq<char>> {
    if s.len() > 0 {
        Some(s)
    } else {
        None
    }
}

/// Whether `o` is the JSON `order` of a feature's order value.
pub open spec fn order_ok(o: Option<OrderJson>, v: Option<YamlValue>) -> bool {
    match v {
        None => o is None,
        Some(y) => {
            let s = yaml_text(y);
            if s.len() == 0 {
                o is None
            } else {
                match parse_i64_spec(s) {
                    Some(n) => o == Some(OrderJson::Int(n)),
                    None => o matches Some(OrderJson::Text(t)) && t@ == s,
                }
            }
        },
    }
}

/// Whether `c` lists the choices `e`.
pub open spec fn choices_ok(c: Seq<ChoiceJson>, e: Seq<(Seq<char>, YamlValue)>) -> bool {
    &&& c.len() == e.len()
    &&& forall|i: int|
        0 <= i < c.len() ==> (#[trigger] c[i]).name@ == e[i].0 && opt_view(c[i].value) == non_empty_seq(
            yaml_text(e[i].1),
        )
}

/// Whether `j` is the JSON definition of the custom feature `cf` under `key`.
pub open spec fn feature_json_ok(j: FeatureJson, key: Seq<char>, cf: CustomFeature) -> bool {
    let ce = choice_entries(cf.choices);
    &&& j.name@ == cf.prompt@
    &&& opt_view(j.description) == non_empty_view(cf.description)
    &&& opt_view(j.submenu) == non_empty_view(cf.submenu)
    &&& opt_view(j.preset) == non_empty_view(cf.preset)
    &&& opt_view(j.preset_parameters) == non_empty_view(cf.preset_parameters)
    &&& opt_view(j.group) == non_empty_view(cf.group)
    &&& order_ok(j.order, cf.order)
    &&& opt_view(j.value) == non_empty_seq(key)
    &&& if cf.preset is None && ce.len() > 0 {
        j.choices matches Some(c) && choices_ok(c@, ce)
    } else {
        j.choices is None
    }
}

fn order_to_json(order: &Option<YamlValue>) -> (r: Option<OrderJson>)
    ensures
        order_ok(r, *order),
{
    match order {
        Some(o) => {
            let s = yaml_value_to_string(o);
            if s.as_str().is_empty() {
                None
            } else {
                match parse_i64(s.as_str()) {
                    Some(n) => Some(OrderJson::Int(n)),
                    None => Some(OrderJson::Text(s)),
                }
            }
        },
        None => None,
    }
}

fn choices_to_json(choices: &IndexMap<String, YamlValue>) -> (r: Vec<ChoiceJson>)
    ensures
        choices_ok(r@, choice_entries(*choices)),
{
    let ghost ce = choice_entries(*choices);
    let n = choices_len(choices);
    let mut out: Vec<ChoiceJson> = Vec::new();
    let mut i: usize = 0;
    while i < n
        invariant
            i <= n,
            n == ce.len(),
            ce == choice_entries(*choices),
            out.len() == i,
            forall|k: int|
                0 <= k < i ==> (#[trigger] out@[k]).name@ == ce[k].0 && opt_view(out@[k].value) == non_empty_seq(
                    yaml_text(ce[k].1),
                ),
        decreases n - i,
    {
        let (choice_name, choice_value) = choices_get_index(choices, i).unwrap();
        let v = yaml_value_to_string(choice_value);
        let value = if v.as_str().is_empty() {
            None
        } else {
            Some(v)
        };
        out.push(ChoiceJson { name: choice_name.clone(), value });
        i = i + 1;
    }
    out
}

/// The JSON definition of one custom feature.
fn feature_to_json(key: &str, cf: &CustomFeature) -> (r: FeatureJson)
    ensures
        feature_json_ok(r, key@, *cf),
{
    let n = choices_len(&cf.choices);
    let choices = if cf.preset.is_none() && n > 0 {
        Some(choices_to_json(&cf.choices))
    } else {
        None
    };
    FeatureJson {
        name: cf.prompt.clone(),
        description: non_empty(&cf.description),
        submenu: non_empty(&cf.submenu),
        preset: non_empty(&cf.preset),
        preset_parameters: non_empty(&cf.preset_parameters),
        group: non_empty(&cf.group),
        order: order_to_json(&cf.order),
        value: if key.is_empty() {
            None
        } else {
            Some(String::from_str(key))
        },
        choices,
    }
}

/// The custom features offered on `arch`, in order.
pub open spec fn offered(e: Seq<(Seq<char>, CustomFeature)>, arch: Seq<char>) -> Seq<(Seq<char>, CustomFeature)>
    decreases e.len(),
{
    if e.len() == 0 {
        Seq::empty()
    } else if arch_ok(arch, e.last().1) {
        offered(e.drop_last(), arch).push(e.last())
    } else {
        offered(e.drop_last(), arch)
    }
}

/// Whether `v` defines the features `f`, one by one.
pub open spec fn defs_ok(v: Seq<FeatureJson>, f: Seq<(Seq<char>, CustomFeature)>) -> bool {
    &&& v.len() == f.len()
    &&& forall|i: int| 0 <= i < v.len() ==> feature_json_ok(#[trigger] v[i], f[i].0, f[i].1)
}

fn collect_cfeatures(cfeatures: &IndexMap<String, CustomFeature>, arch: &str) -> (r: Vec<FeatureJson>)
    ensures
        defs_ok(r@, offered(cfeature_entries(*cfeatures), arch@)),
{
    let ghost ce = cfeature_entries(*cfeatures);
    let n = cfeatures_len(cfeatures);
    let mut out: Vec<FeatureJson> = Vec::new();
    let mut i: usize = 0;
    while i < n
        invariant
            i <= n,
            n == ce.len(),
            ce == cfeature_entries(*cfeatures),
            defs_ok(out@, offered(ce.take(i as int), arch@)),
        decreases n - i,
    {
        let (cf_name, cf) = cfeatures_get_index(cfeatures, i).unwrap();
        proof {
            assert(ce.take(i + 1).drop_last() =~= ce.take(i as int));
            assert(ce.take(i + 1).last() == ce[i as int]);
        }
        if arch_valid(arch, cf) {
            let j = feature_to_json(cf_name.as_str(), cf);
            let ghost before = out@;
            out.push(j);
            proof {
                let f = offered(ce.take(i + 1), arch@);
                assert(f == offered(ce.take(i as int), arch@).push(ce[i as int]));
                assert forall|k: int| 0 <= k < out@.len() implies feature_json_ok(#[trigger] out@[k], f[k].0, f[k].1) by {
                    if k < before.len() {
                        assert(out@[k] == before[k]);
                    }
                }
            }
        }
        i = i + 1;
    }
    assert(ce.take(n as int) =~= ce);
    out
}

/// The names of `list` that the shared definitions `defs` define and offer on `arch`.
pub open spec fn shared_names(list: Seq<String>, arch: Seq<char>, defs: Seq<(Seq<char>, CustomFeature)>) -> Seq<
    Seq<char>,
>
    decreases list.len(),
{
    if list.len() == 0 {
        Seq::empty()
    } else {
        let prev = shared_names(list.drop_last(), arch, defs);
        match lookup(defs, list.last()@) {
            Some(f) => if arch_ok(arch, f) {
                prev.push(list.last()@)
            } else {
                prev
            },
            None => prev,
        }
    }
}

/// The shared features that a context refers to; none without a `shared` section.
pub open spec fn shared_refs(list: Seq<String>, arch: Seq<char>, all: Seq<(Seq<char>, EmulatorFeatures)>) -> Seq<
    Seq<char>,
> {
    match lookup(all, "shared"@) {
        Some(sec) => shared_names(list, arch, cfeature_entries(sec.cfeatures)),
        None => Seq::empty(),
    }
}

/// Whether `v` refers to the shared features `names`, one by one.
pub open spec fn refs_ok(v: Seq<SharedRefJson>, names: Seq<Seq<char>>) -> bool {
    &&& v.len() == names.len()
    &&& forall|i: int| 0 <= i < v.len() ==> (#[trigger] v[i]).value@ == names[i]
}

fn collect_shared_refs(
    shared_list: &Vec<String>,
    arch: &str,
    all_features: &IndexMap<String, EmulatorFeatures>,
) -> (r: Vec<SharedRefJson>)
    ensures
        refs_ok(r@, shared_refs(shared_list@, arch@, emulator_entries(*all_features))),
{
    let mut out: Vec<SharedRefJson> = Vec::new();
    let shared_section = match emulators_get(all_features, "shared") {
        Some(s) => s,
        None => {
            return out;
        },
    };
    let ghost defs = cfeature_entries(shared_section.cfeatures);
    let mut i: usize = 0;
    while i < shared_list.len()
        invariant
            i <= shared_list.len(),
            defs == cfeature_entries(shared_section.cfeatures),
            refs_ok(out@, shared_names(shared_list@.take(i as int), arch@, defs)),
        decreases shared_list.len() - i,
    {
        proof {
            assert(shared_list@.take(i + 1).drop_last() =~= shared_list@.take(i as int));
            assert(shared_list@.take(i + 1).last() == shared_list@[i as int]);
        }
        let shared_name = &shared_list[i];
        match cfeatures_get(&shared_section.cfeatures, shared_name.as_str()) {
            Some(feature) => {
                if arch_valid(arch, feature) {
                    let ghost before = out@;
                    out.push(SharedRefJson { value: shared_name.clone() });
                    proof {
                        let names = shared_names(shared_list@.take(i + 1), arch@, defs);
                        assert forall|k: int| 0 <= k < out@.len() implies (#[trigger] out@[k]).value@ == names[k] by {
                            if k < before.len() {
                                assert(out@[k] == before[k]);
                            }
                        }
                    }
                }
            },
            None => {},
        }
        i = i + 1;
    }
    assert(shared_list@.take(shared_list.len() as int) =~= shared_list@);
    out
}

/// A list's comma-separated form, absent when the list is empty.
pub open spec fn csv_opt(list: Seq<String>) -> Option<Seq<char>> {
    if list.len() == 0 {
        None
    } else {
        Some(csv(list))
    }
}

fn features_csv(list: &Vec<String>) -> (r: Option<String>)
    ensures
        opt_view(r) == csv_opt(list@),
{
    if list.len() == 0 {
        None
    } else {
        Some(join(list, ", "))
    }
}

/// An optional list of references: absent when there are none.
pub open spec fn refs_opt_ok(o: Option<Vec<SharedRefJson>>, names: Seq<Seq<char>>) -> bool {
    if names.len() == 0 {
        o is None
    } else {
        o matches Some(v) && refs_ok(v@, names)
    }
}

/// An optional list of definitions: absent when there are none.
pub open spec fn defs_opt_ok(o: Option<Vec<FeatureJson>>, f: Seq<(Seq<char>, CustomFeature)>) -> bool {
    if f.len() == 0 {
        o is None
    } else {
        o matches Some(v) && defs_ok(v@, f)
    }
}

fn refs_opt(v: Vec<SharedRefJson>) -> (r: Option<Vec<SharedRefJson>>)
    ensures
        v.len() == 0 ==> r is None,
        v.len() > 0 ==> r == Some(v),
{
    if v.len() == 0 {
        None
    } else {
        Some(v)
    }
}

fn defs_opt(v: Vec<FeatureJson>) -> (r: Option<Vec<FeatureJson>>)
    ensures
        v.len() == 0 ==> r is None,
        v.len() > 0 ==> r == Some(v),
{
    if v.len() == 0 {
        None
    } else {
        Some(v)
    }
}

/// Whether `j` describes the system `sys` named `name`.
pub open spec fn system_json_ok(
    j: SystemFeaturesJson,
    name: Seq<char>,
    sys: SystemFeatures,
    arch: Seq<char>,
    all: Seq<(Seq<char>, EmulatorFeatures)>,
) -> bool {
    &&& j.name@ == name
    &&& opt_view(j.features) == csv_opt(sys.features@)
    &&& refs_opt_ok(j.shared_features, shared_refs(sys.shared@, arch, all))
    &&& defs_opt_ok(j.custom_features, offered(cfeature_entries(sys.cfeatures), arch))
}

/// Whether `v` describes the systems `e`, one by one.
pub open spec fn systems_json_ok(
    v: Seq<SystemFeaturesJson>,
    e: Seq<(Seq<char>, SystemFeatures)>,
    arch: Seq<char>,
    all: Seq<(Seq<char>, EmulatorFeatures)>,
) -> bool {
    &&& v.len() == e.len()
    &&& forall|i: int| 0 <= i < v.len() ==> system_json_ok(#[trigger] v[i], e[i].0, e[i].1, arch, all)
}

fn collect_systems(
    systems: &IndexMap<String, SystemFeatures>,
    arch: &str,
    all_features: &IndexMap<String, EmulatorFeatures>,
) -> (r: Vec<SystemFeaturesJson>)
    ensures
        systems_json_ok(r@, system_feature_entries(*systems), arch@, emulator_entries(*all_features)),
{
    let ghost se = system_feature_entries(*systems);
    let ghost all = emulator_entries(*all_features);
    let n = system_features_len(systems);
    let mut out: Vec<SystemFeaturesJson> = Vec::new();
    let mut i: usize = 0;
    while i < n
        invariant
            i <= n,
            n == se.len(),
            se == system_feature_entries(*systems),
            all == emulator_entries(*all_features),
            out.len() == i,
            forall|k: int| 0 <= k < i ==> system_json_ok(#[trigger] out@[k], se[k].0, se[k].1, arch@, all),
        decreases n - i,
    {
        let (sys_name, sys_data) = system_features_get_index(systems, i).unwrap();
        let j = SystemFeaturesJson {
            name: sys_name.clone(),
            features: features_csv(&sys_data.features),
            shared_features: refs_opt(collect_shared_refs(&sys_data.shared, arch, all_features)),
            custom_features: defs_opt(collect_cfeatures(&sys_data.cfeatures, arch)),
        };
        out.push(j);
        i = i + 1;
    }
    out
}

/// An optional list of systems: absent when there are none.
pub open spec fn systems_opt_ok(
    o: Option<Vec<SystemFeaturesJson>>,
    e: Seq<(Seq<char>, SystemFeatures)>,
    arch: Seq<char>,
    all: Seq<(Seq<char>, EmulatorFeatures)>,
) -> bool {
    if e.len() == 0 {
        o is None
    } else {
        o matches Some(v) && systems_json_ok(v@, e, arch, all)
    }
}

fn systems_opt(v: Vec<SystemFeaturesJson>) -> (r: Option<Vec<SystemFeaturesJson>>)
    ensures
        v.len() == 0 ==> r is None,
        v.len() > 0 ==> r == Some(v),
{
    if v.len() == 0 {
        None
    } else {
        Some(v)
    }
}

/// Whether `j` describes the core `c` named `name`.
pub open spec fn core_json_ok(
    j: CoreFeaturesJson,
    name: Seq<char>,
    c: CoreFeatures,
    arch: Seq<char>,
    all: Seq<(Seq<char>, EmulatorFeatures)>,
) -> bool {
    &&& j.name@ == name
    &&& opt_view(j.features) == csv_opt(c.features@)
    &&& refs_opt_ok(j.shared_features, shared_refs(c.shared@, arch, all))
    &&& defs_opt_ok(j.custom_features, offered(cfeature_entries(c.cfeatures), arch))
    &&& systems_opt_ok(j.systems, system_feature_entries(c.systems), arch, all)
}

fn core_to_json(
    name: &str,
    data: &CoreFeatures,
    arch: &str,
    all_features: &IndexMap<String, EmulatorFeatures>,
) -> (r: CoreFeaturesJson)
    ensures
        core_json_ok(r, name@, *data, arch@, emulator_entries(*all_features)),
{
    CoreFeaturesJson {
        name: String::from_str(name),
        features: features_csv(&data.features),
        shared_features: refs_opt(collect_shared_refs(&data.shared, arch, all_features)),
        custom_features: defs_opt(collect_cfeatures(&data.cfeatures, arch)),
        systems: systems_opt(collect_systems(&data.systems, arch, all_features)),
    }
}

/// Whether `j` describes the emulator `d` named `name`.
pub open spec fn emulator_json_ok(
    j: EmulatorFeaturesJson,
    name: Seq<char>,
    d: EmulatorFeatures,
    arch: Seq<char>,
    all: Seq<(Seq<char>, EmulatorFeatures)>,
) -> bool {
    let ce = core_feature_entries(d.cores);
    &&& j.name@ == name
    &&& opt_view(j.features) == csv_opt(d.features@)
    &&& refs_opt_ok(j.shared_features, shared_refs(d.shared@, arch, all))
    &&& defs_opt_ok(j.custom_features, offered(cfeature_entries(d.cfeatures), arch))
    &&& if ce.len() == 0 {
        j.cores is None
    } else {
        j.cores matches Some(v) && v@.len() == ce.len() && forall|i: int|
            0 <= i < ce.len() ==> core_json_ok(#[trigger] v@[i], ce[i].0, ce[i].1, arch, all)
    }
    &&& systems_opt_ok(j.systems, system_feature_entries(d.systems), arch, all)
}

fn emulator_to_json(
    name: &str,
    data: &EmulatorFeatures,
    arch: &str,
    all_features: &IndexMap<String, EmulatorFeatures>,
) -> (r: EmulatorFeaturesJson)
    ensures
        emulator_json_ok(r, name@, *data, arch@, emulator_entries(*all_features)),
{
    let ghost ce = core_feature_entries(data.cores);
    let ghost all = emulator_entries(*all_features);
    let n = core_features_len(&data.cores);
    let cores = if n > 0 {
        let mut cores_out: Vec<CoreFeaturesJson> = Vec::new();
        let mut i: usize = 0;
        while i < n
            invariant
                i <= n,
                n == ce.len(),
                ce == core_feature_entries(data.cores),
                all == emulator_entries(*all_features),
                cores_out.len() == i,
                forall|k: int| 0 <= k < i ==> core_json_ok(#[trigger] cores_out@[k], ce[k].0, ce[k].1, arch@, all),
            decreases n - i,
        {
            let (core_name, core_data) = core_features_get_index(&data.cores, i).unwrap();
            cores_out.push(core_to_json(core_name.as_str(), core_data, arch, all_features));
            i = i + 1;
        }
        Some(cores_out)
    } else {
        None
    };
    EmulatorFeaturesJson {
        name: String::from_str(name),
        features: features_csv(&data.features),
        shared_features: refs_opt(collect_shared_refs(&data.shared, arch, all_features)),
        custom_features: defs_opt(collect_cfeatures(&data.cfeatures, arch)),
        cores,
        systems: systems_opt(collect_systems(&data.systems, arch, all_features)),
    }
}

/// The entries other than the reserved `global` and `shared` sections.
pub open spec fn plain_emulators(e: Seq<(Seq<char>, EmulatorFeatures)>) -> Seq<(Seq<char>, EmulatorFeatures)>
    decreases e.len(),
{
    if e.len() == 0 {
        Seq::empty()
    } else if e.last().0 == "global"@ || e.last().0 == "shared"@ {
        plain_emulators(e.drop_last())
    } else {
        plain_emulators(e.drop_last()).push(e.last())
    }
}

/// Whether `doc` is the es_features.json document of the features `all` on `arch`.
pub open spec fn features_json_ok(doc: FeaturesJson, all: Seq<(Seq<char>, EmulatorFeatures)>, arch: Seq<char>) -> bool {
    let emus = plain_emulators(all);
    &&& match lookup(all, "shared"@) {
        Some(sec) => {
            let defs = offered(cfeature_entries(sec.cfeatures), arch);
            if defs.len() == 0 {
                doc.shared_features is None
            } else {
                doc.shared_features matches Some(s) && defs_ok(s.custom_features@, defs)
            }
        },
        None => doc.shared_features is None,
    }
    &&& match lookup(all, "global"@) {
        Some(g) => {
            let refs = shared_refs(g.shared@, arch, all);
            let defs = offered(cfeature_entries(g.cfeatures), arch);
            if refs.len() == 0 && defs.len() == 0 {
                doc.global_features is None
            } else {
                doc.global_features matches Some(gs) && refs_opt_ok(gs.shared_features, refs) && defs_opt_ok(
                    gs.custom_features,
                    defs,
                )
            }
        },
        None => doc.global_features is None,
    }
    &&& if emus.len() == 0 {
        doc.emulators is None
    } else {
        doc.emulators matches Some(v) && v@.len() == emus.len() && forall|i: int|
            0 <= i < emus.len() ==> emulator_json_ok(#[trigger] v@[i], emus[i].0, emus[i].1, arch, all)
    }
}

/// Build the es_features.json document: the shared definitions, the global
/// section, and every other entry as an emulator.
pub fn generate_features(features: &IndexMap<String, EmulatorFeatures>, arch: &str) -> (r: FeaturesJson)
    ensures
        features_json_ok(r, emulator_entries(*features), arch@),
{
    let ghost all = emulator_entries(*features);
    let shared_features = match emulators_get(features, "shared") {
        Some(shared_sec) => {
            let defs = collect_cfeatures(&shared_sec.cfeatures, arch);
            if defs.len() > 0 {
                Some(SharedSectionJson { custom_features: defs })
            } else {
                None
            }
        },
        None => None,
    };
    let global_features = match emulators_get(features, "global") {
        Some(global_sec) => {
            let refs = collect_shared_refs(&global_sec.shared, arch, features);
            let defs = collect_cfeatures(&global_sec.cfeatures, arch);
            if refs.len() == 0 && defs.len() == 0 {
                None
            } else {
                Some(GlobalSectionJson { shared_features: refs_opt(refs), custom_features: defs_opt(defs) })
            }
        },
        None => None,
    };
    let n = emulators_len(features);
    let mut emulators_out: Vec<EmulatorFeaturesJson> = Vec::new();
    let mut i: usize = 0;
    while i < n
        invariant
            i <= n,
            n == all.len(),
            all == emulator_entries(*features),
            emulators_out.len() == plain_emulators(all.take(i as int)).len(),
            forall|k: int|
                0 <= k < emulators_out.len() ==> emulator_json_ok(
                    #[trigger] emulators_out@[k],
                    plain_emulators(all.take(i as int))[k].0,
                    plain_emulators(all.take(i as int))[k].1,
                    arch@,
                    all,
                ),
        decreases n - i,
    {
        let (emu_name, emu_data) = emulators_get_index(features, i).unwrap();
        proof {
            assert(all.take(i + 1).drop_last() =~= all.take(i as int));
            assert(all.take(i + 1).last() == all[i as int]);
        }
        if !(str_eq(emu_name.as_str(), "global") || str_eq(emu_name.as_str(), "shared")) {
            let ghost before = emulators_out@;
            emulators_out.push(emulator_to_json(emu_name.as_str(), emu_data, arch, features));
            proof {
                let p = plain_emulators(all.take(i + 1));
                assert(p == plain_emulators(all.take(i as int)).push(all[i as int]));
                assert forall|k: int| 0 <= k < emulators_out.len() implies emulator_json_ok(
                    #[trigger] emulators_out@[k],
                    p[k].0,
                    p[k].1,
                    arch@,
                    all,
                ) by {
                    if k < before.len() {
                        assert(emulators_out@[k] == before[k]);
                    }
                }
            }
        }
        i = i + 1;
    }
    assert(all.take(n as int) =~= all);
    let emulators = if emulators_out.len() > 0 {
        Some(emulators_out)
    } else {
        None
    };
    FeaturesJson { shared_features, global_features, emulators }
}


/// A core in es_systems.json: `{ name, default?, incompatible_extensions? }`,
/// `default` written only when true.
pub struct CoreJson {
    pub name: String,
    pub default: bool,
    pub incompatible_extensions: Option<Vec<String>>,
}

/// An emulator in es_systems.json: `{ name, cores }`.
pub struct EmulatorJson {
    pub name: String,
    pub cores: Vec<CoreJson>,
}

/// A system in es_systems.json.
pub struct SystemJson {
    pub name: String,
    pub fullname: String,
    pub manufacturer: String,
    pub release: String,
    pub hardware: String,
    pub path: Option<String>,
    pub extension: Option<Vec<String>>,
    pub command: Option<String>,
    pub platform: Option<String>,
    pub theme: String,
    pub group: Option<String>,
    pub emulators: Option<Vec<EmulatorJson>>,
}

/// The es_systems.json document: `{ systemList }`.
pub struct SystemListJson {
    pub system_list: Vec<SystemJson>,
}

/// The cores named by `names`, in that order, whose requirements `config` meets.
pub open spec fn met_cores(names: Seq<Seq<char>>, cores: Seq<(Seq<char>, CoreReq)>, config: Set<Seq<char>>) -> Seq<
    (Seq<char>, CoreReq),
>
    decreases names.len(),
{
    if names.len() == 0 {
        Seq::empty()
    } else {
        let prev = met_cores(names.drop_last(), cores, config);
        match lookup(cores, names.last()) {
            Some(c) => if requirements_met(config, c.require_any_of@) {
                prev.push((names.last(), c))
            } else {
                prev
            },
            None => prev,
        }
    }
}

/// The offered cores of one emulator, in name order.
pub open spec fn offered_cores(cores: Seq<(Seq<char>, CoreReq)>, config: Set<Seq<char>>) -> Seq<(Seq<char>, CoreReq)> {
    met_cores(sorted_strs(entry_keys(cores)), cores, config)
}

/// Whether `j` is the JSON of the core `c` named `name`.
pub open spec fn launch_core_ok(j: CoreJson, name: Seq<char>, c: CoreReq, is_default: bool) -> bool {
    &&& j.name@ == name
    &&& j.default == is_default
    &&& if c.incompatible_extensions@.len() > 0 {
        j.incompatible_extensions matches Some(v) && views(v@) == dotted_lower(c.incompatible_extensions@)
    } else {
        j.incompatible_extensions is None
    }
}

/// Whether `v` lists the offered cores `cores` of `emulator`.
pub open spec fn launch_cores_ok(
    v: Seq<CoreJson>,
    cores: Seq<(Seq<char>, CoreReq)>,
    emulator: Seq<char>,
    default_emulator: Option<Seq<char>>,
    default_core: Option<Seq<char>>,
) -> bool {
    &&& v.len() == cores.len()
    &&& forall|i: int|
        0 <= i < v.len() ==> launch_core_ok(
            #[trigger] v[i],
            cores[i].0,
            cores[i].1,
            is_default_core(emulator, cores[i].0, default_emulator, default_core),
        )
}

fn cores_json(
    cores: &IndexMap<String, CoreReq>,
    config: &NameSet,
    emulator: &str,
    default_emulator: Option<&String>,
    default_core: Option<&String>,
) -> (r: Vec<CoreJson>)
    ensures
        launch_cores_ok(
            r@,
            offered_cores(core_req_entries(*cores), config@),
            emulator@,
            opt_ref_view(default_emulator),
            opt_ref_view(default_core),
        ),
{
    let ghost ce = core_req_entries(*cores);
    let ghost de = opt_ref_view(default_emulator);
    let ghost dc = opt_ref_view(default_core);
    let names = sort_strings(core_names(cores));
    let ghost ns = sorted_strs(entry_keys(ce));
    let mut out: Vec<CoreJson> = Vec::new();
    let mut i: usize = 0;
    while i < names.len()
        invariant
            i <= names.len(),
            views(names@) == ns,
            ns == sorted_strs(entry_keys(ce)),
            ce == core_req_entries(*cores),
            de == opt_ref_view(default_emulator),
            dc == opt_ref_view(default_core),
            launch_cores_ok(out@, met_cores(ns.take(i as int), ce, config@), emulator@, de, dc),
        decreases names.len() - i,
    {
        proof {
            assert(ns.take(i + 1).drop_last() =~= ns.take(i as int));
            assert(ns.take(i + 1).last() == ns[i as int]);
            assert(ns[i as int] == names@[i as int]@);
        }
        let core = &names[i];
        match core_reqs_get(cores, core.as_str()) {
            Some(core_data) => {
                if is_valid(config, core_data.require_any_of.as_slice()) {
                    let is_default = opt_ref_view_eq(default_emulator, emulator) && opt_ref_view_eq(
                        default_core,
                        core.as_str(),
                    );
                    let incompatible_extensions = if core_data.incompatible_extensions.len() > 0 {
                        Some(dotted_lower_list(&core_data.incompatible_extensions))
                    } else {
                        None
                    };
                    let ghost before = out@;
                    out.push(CoreJson { name: core.clone(), default: is_default, incompatible_extensions });
                    proof {
                        let m = met_cores(ns.take(i + 1), ce, config@);
                        assert(m == met_cores(ns.take(i as int), ce, config@).push((core@, *core_data)));
                        assert forall|k: int| 0 <= k < out@.len() implies launch_core_ok(
                            #[trigger] out@[k],
                            m[k].0,
                            m[k].1,
                            is_default_core(emulator@, m[k].0, de, dc),
                        ) by {
                            if k < before.len() {
                                assert(out@[k] == before[k]);
                            }
                        }
                    }
                }
            },
            None => {},
        }
        i = i + 1;
    }
    assert(ns.take(names.len() as int) =~= ns);
    out
}

/// The emulators named by `names`, in that order, that offer a core.
pub open spec fn offering_emulators(
    names: Seq<Seq<char>>,
    emulators: Seq<(Seq<char>, IndexMap<String, CoreReq>)>,
    config: Set<Seq<char>>,
) -> Seq<(Seq<char>, IndexMap<String, CoreReq>)>
    decreases names.len(),
{
    if names.len() == 0 {
        Seq::empty()
    } else {
        let prev = offering_emulators(names.drop_last(), emulators, config);
        match lookup(emulators, names.last()) {
            Some(m) => if offered_cores(core_req_entries(m), config).len() > 0 {
                prev.push((names.last(), m))
            } else {
                prev
            },
            None => prev,
        }
    }
}

/// Whether `o` lists the emulators of `data` that offer a core, in name
/// order; absent when there is none.
pub open spec fn emulators_json_ok(
    o: Option<Vec<EmulatorJson>>,
    data: System,
    config: Set<Seq<char>>,
    default_emulator: Option<Seq<char>>,
    default_core: Option<Seq<char>>,
) -> bool {
    let ee = emulator_req_entries(data.emulators);
    let emus = offering_emulators(sorted_strs(entry_keys(ee)), ee, config);
    if emus.len() == 0 {
        o is None
    } else {
        o matches Some(v) && v@.len() == emus.len() && forall|i: int|
            0 <= i < emus.len() ==> (#[trigger] v@[i]).name@ == emus[i].0 && launch_cores_ok(
                v@[i].cores@,
                offered_cores(core_req_entries(emus[i].1), config),
                emus[i].0,
                default_emulator,
                default_core,
            )
    }
}

pub fn list_emulators_json(
    data: &System,
    config: &NameSet,
    default_emulator: Option<&String>,
    default_core: Option<&String>,
) -> (r: Option<Vec<EmulatorJson>>)
    ensures
        emulators_json_ok(r, *data, config@, opt_ref_view(default_emulator), opt_ref_view(default_core)),
        r is None <==> crate::generate_systems::emulators_text(
            *data,
            config@,
            opt_ref_view(default_emulator),
            opt_ref_view(default_core),
        ).len() == 0,
{
    let ghost ee = emulator_req_entries(data.emulators);
    let ghost de = opt_ref_view(default_emulator);
    let ghost dc = opt_ref_view(default_core);
    let names = sort_strings(emulator_names(&data.emulators));
    let ghost ns = sorted_strs(entry_keys(ee));
    let mut out: Vec<EmulatorJson> = Vec::new();
    let mut i: usize = 0;
    while i < names.len()
        invariant
            i <= names.len(),
            views(names@) == ns,
            ns == sorted_strs(entry_keys(ee)),
            ee == emulator_req_entries(data.emulators),
            de == opt_ref_view(default_emulator),
            dc == opt_ref_view(default_core),
            out.len() == offering_emulators(ns.take(i as int), ee, config@).len(),
            forall|k: int|
                0 <= k < out.len() ==> (#[trigger] out@[k]).name@ == offering_emulators(ns.take(i as int), ee, config@)[k].0
                    && launch_cores_ok(
                    out@[k].cores@,
                    offered_cores(core_req_entries(offering_emulators(ns.take(i as int), ee, config@)[k].1), config@),
                    offering_emulators(ns.take(i as int), ee, config@)[k].0,
                    de,
                    dc,
                ),
        decreases names.len() - i,
    {
        proof {
            assert(ns.take(i + 1).drop_last() =~= ns.take(i as int));
            assert(ns.take(i + 1).last() == ns[i as int]);
            assert(ns[i as int] == names@[i as int]@);
        }
        let emulator = &names[i];
        match emulator_reqs_get(&data.emulators, emulator.as_str()) {
            Some(emulator_data) => {
                let cores = cores_json(emulator_data, config, emulator.as_str(), default_emulator, default_core);
                if cores.len() > 0 {
                    let ghost before = out@;
                    out.push(EmulatorJson { name: emulator.clone(), cores });
                    proof {
                        let p = offering_emulators(ns.take(i + 1), ee, config@);
                        assert(p == offering_emulators(ns.take(i as int), ee, config@).push((emulator@, *emulator_data)));
                        assert forall|k: int| 0 <= k < out.len() implies (#[trigger] out@[k]).name@ == p[k].0
                            && launch_cores_ok(out@[k].cores@, offered_cores(core_req_entries(p[k].1), config@), p[k].0, de, dc) by {
                            if k < before.len() {
                                assert(out@[k] == before[k]);
                            }
                        }
                    }
                }
            },
            None => {},
        }
        i = i + 1;
    }
    assert(ns.take(names.len() as int) =~= ns);
    proof {
        lemma_emulators_text_iff_offering(*data, config@, de, dc);
    }
    if out.len() == 0 {
        None
    } else {
        Some(out)
    }
}

/// Whether `j` is the es_systems.json entry of the system `data` named `name`.
pub open spec fn system_json_entry_ok(
    j: SystemJson,
    name: Seq<char>,
    data: System,
    config: Set<Seq<char>>,
    default_emulator: Option<Seq<char>>,
    default_core: Option<Seq<char>>,
) -> bool {
    let path = system_path_text(name, data);
    let exts = dotted_lower(data.extensions@);
    let platform = or_default(data.platform, name);
    &&& j.name@ == name
    &&& j.fullname@ == data.name@
    &&& j.manufacturer@ == data.manufacturer@
    &&& j.release@ == yaml_text(data.release)
    &&& j.hardware@ == data.hardware@
    &&& if exts.len() > 0 {
        &&& opt_view(j.path) == non_empty_seq(path)
        &&& j.extension matches Some(v) && views(v@) == exts
        &&& opt_view(j.command) == Some(or_default(data.command, crate::generate_systems::default_command()))
    } else {
        &&& j.path is None
        &&& j.extension is None
        &&& j.command is None
    }
    &&& opt_view(j.platform) == non_empty_seq(platform)
    &&& j.theme@ == or_default(data.theme, name)
    &&& opt_view(j.group) == non_empty_view(data.group)
    &&& emulators_json_ok(j.emulators, data, config, default_emulator, default_core)
}

pub fn gen_system_json(
    name: &str,
    data: &System,
    config: &NameSet,
    default_emulator: Option<&String>,
    default_core: Option<&String>,
) -> (r: Option<SystemJson>)
    ensures
        ({
            let ee = emulator_req_entries(data.emulators);
            let none_offered = offering_emulators(sorted_strs(entry_keys(ee)), ee, config@).len() == 0;
            match r {
                None => none_offered && !data.force,
                Some(j) => !(none_offered && !data.force) && system_json_entry_ok(
                    j,
                    name@,
                    *data,
                    config@,
                    opt_ref_view(default_emulator),
                    opt_ref_view(default_core),
                ),
            }
        }),
{
    let emulators = list_emulators_json(data, config, default_emulator, default_core);
    if emulators.is_none() && !data.force {
        return None;
    }
    let extensions = dotted_lower_list(&data.extensions);
    let path_value = system_path(name, data);
    let platform_value = text_or(&data.platform, name);
    let (path, extension, command) = if extensions.len() > 0 {
        let path = if path_value.as_str().is_empty() {
            None
        } else {
            Some(path_value)
        };
        let command = text_or(
            &data.command,
            "emulatorlauncher %CONTROLLERSCONFIG% -system %SYSTEM% -rom %ROM% -gameinfoxml %GAMEINFOXML% -systemname %SYSTEMNAME%",
        );
        (path, Some(extensions), Some(command))
    } else {
        (None, None, None)
    };
    Some(
        SystemJson {
            name: String::from_str(name),
            fullname: data.name.clone(),
            manufacturer: data.manufacturer.clone(),
            release: yaml_value_to_string(&data.release),
            hardware: data.hardware.clone(),
            path,
            extension,
            command,
            platform: if platform_value.as_str().is_empty() {
                None
            } else {
                Some(platform_value)
            },
            theme: text_or(&data.theme, name),
            group: non_empty(&data.group),
            emulators,
        },
    )
}

/// The systems named by `names`, in that order, that es_systems.json lists.
pub open spec fn listed_systems(
    names: Seq<Seq<char>>,
    systems: Seq<(Seq<char>, System)>,
    config: Set<Seq<char>>,
) -> Seq<(Seq<char>, System)>
    decreases names.len(),
{
    if names.len() == 0 {
        Seq::empty()
    } else {
        let prev = listed_systems(names.drop_last(), systems, config);
        match lookup(systems, names.last()) {
            Some(data) => {
                let ee = emulator_req_entries(data.emulators);
                if offering_emulators(sorted_strs(entry_keys(ee)), ee, config).len() == 0 && !data.force {
                    prev
                } else {
                    prev.push((names.last(), data))
                }
            },
            None => prev,
        }
    }
}

/// Whether `doc` is the es_systems.json document of `systems`.
pub open spec fn system_list_ok(
    doc: SystemListJson,
    systems: Seq<(Seq<char>, System)>,
    config: Set<Seq<char>>,
    global: Seq<(Seq<char>, SystemDefault)>,
    arch: Seq<(Seq<char>, SystemDefault)>,
) -> bool {
    let listed = listed_systems(sorted_strs(entry_keys(systems)), systems, config);
    &&& doc.system_list@.len() == listed.len()
    &&& forall|i: int|
        0 <= i < listed.len() ==> system_json_entry_ok(
            #[trigger] doc.system_list@[i],
            listed[i].0,
            listed[i].1,
            config,
            default_emulator_of(listed[i].0, global, arch),
            default_core_of(listed[i].0, global, arch),
        )
}

/// Generate es_systems as a JSON document.
pub fn generate_systems(
    systems: &IndexMap<String, System>,
    config: &NameSet,
    systems_config: &IndexMap<String, SystemDefault>,
    arch_systems_config: &IndexMap<String, SystemDefault>,
) -> (r: SystemListJson)
    ensures
        system_list_ok(
            r,
            system_entries(*systems),
            config@,
            default_entries(*systems_config),
            default_entries(*arch_systems_config),
        ),
{
    let ghost se = system_entries(*systems);
    let ghost ge = default_entries(*systems_config);
    let ghost ae = default_entries(*arch_systems_config);
    let names = sort_strings(system_names(systems));
    let ghost ns = sorted_strs(entry_keys(se));
    let mut system_list: Vec<SystemJson> = Vec::new();
    let mut i: usize = 0;
    while i < names.len()
        invariant
            i <= names.len(),
            views(names@) == ns,
            ns == sorted_strs(entry_keys(se)),
            se == system_entries(*systems),
            ge == default_entries(*systems_config),
            ae == default_entries(*arch_systems_config),
            system_list.len() == listed_systems(ns.take(i as int), se, config@).len(),
            forall|k: int|
                0 <= k < system_list.len() ==> system_json_entry_ok(
                    #[trigger] system_list@[k],
                    listed_systems(ns.take(i as int), se, config@)[k].0,
                    listed_systems(ns.take(i as int), se, config@)[k].1,
                    config@,
                    default_emulator_of(listed_systems(ns.take(i as int), se, config@)[k].0, ge, ae),
                    default_core_of(listed_systems(ns.take(i as int), se, config@)[k].0, ge, ae),
                ),
        decreases names.len() - i,
    {
        proof {
            assert(ns.take(i + 1).drop_last() =~= ns.take(i as int));
            assert(ns.take(i + 1).last() == ns[i as int]);
            assert(ns[i as int] == names@[i as int]@);
        }
        let name = &names[i];
        match systems_get(systems, name.as_str()) {
            Some(data) => {
                let arch_default = defaults_get(arch_systems_config, name.as_str());
                let global_default = defaults_get(systems_config, name.as_str());
                let default_emulator = pick_default(arch_default, global_default, false);
                let default_core = pick_default(arch_default, global_default, true);
                match gen_system_json(name.as_str(), data, config, default_emulator, default_core) {
                    Some(sys) => {
                        let ghost before = system_list@;
                        system_list.push(sys);
                        proof {
                            let l = listed_systems(ns.take(i + 1), se, config@);
                            assert(l == listed_systems(ns.take(i as int), se, config@).push((name@, *data)));
                            assert forall|k: int| 0 <= k < system_list.len() implies system_json_entry_ok(
                                #[trigger] system_list@[k],
                                l[k].0,
                                l[k].1,
                                config@,
                                default_emulator_of(l[k].0, ge, ae),
                                default_core_of(l[k].0, ge, ae),
                            ) by {
                                if k < before.len() {
                                    assert(system_list@[k] == before[k]);
                                }
                            }
                        }
                    },
                    None => {},
                }
            },
            None => {},
        }
        i = i + 1;
    }
    assert(ns.take(names.len() as int) =~= ns);
    SystemListJson { system_list }
}

} // verus!
