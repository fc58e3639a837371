//! The features left out for an architecture, as the lines reported on the
//! standard error while the features files are generated.
use indexmap::IndexMap;
use vstd::prelude::*;
use vstd::string::*;

use crate::models::CoreFeatures;
use crate::models::CustomFeature;
use crate::models::EmulatorFeatures;
use crate::models::SystemFeatures;
use crate::ordered::cfeature_entries;
use crate::ordered::cfeatures_get;
use crate::ordered::cfeatures_get_index;
use crate::ordered::cfeatures_len;
use crate::ordered::core_feature_entries;
use crate::ordered::core_features_get_index;
use crate::ordered::core_features_len;
use crate::ordered::emulator_entries;
use crate::ordered::emulators_get;
use crate::ordered::emulators_get_index;
use crate::ordered::emulators_len;
use crate::ordered::lookup;
use crate::ordered::system_feature_entries;
use crate::ordered::system_features_get_index;
use crate::ordered::system_features_len;
use crate::requirements::arch_ok;
use crate::requirements::arch_valid;
use crate::text::owned;
use crate::text::str_eq;
use crate::text::views;

verus! {

/// The report of a shared feature named by `list` that the shared section
/// defines but does not offer on `arch`.
pub open spec fn shared_def_skips(list: Seq<String>, arch: Seq<char>, defs: Seq<(Seq<char>, CustomFeature)>) -> Seq<
    Seq<char>,
>
    decreases list.len(),
{
    if list.len() == 0 {
        Seq::empty()
    } else {
        let prev = shared_def_skips(list.drop_last(), arch, defs);
        match lookup(defs, list.last()@) {
            Some(f) => if arch_ok(arch, f) {
                prev
            } else {
                prev.push("skipping shared "@ + list.last()@)
            },
            None => prev,
        }
    }
}

/// The reports of the shared features of a context left out on `arch`; none
/// when the features have no `shared` section.
pub open spec fn shared_skips(list: Seq<String>, arch: Seq<char>, all: Seq<(Seq<char>, EmulatorFeatures)>) -> Seq<
    Seq<char>,
> {
    match lookup(all, "shared"@) {
        Some(sec) => shared_def_skips(list, arch, cfeature_entries(sec.cfeatures)),
        None => Seq::empty(),
    }
}

/// The reports of the custom features `e` of the context `label` left out on `arch`.
pub open spec fn cfeature_skips(e: Seq<(Seq<char>, CustomFeature)>, arch: Seq<char>, label: Seq<char>) -> Seq<
    Seq<char>,
>
    decreases e.len(),
{
    if e.len() == 0 {
        Seq::empty()
    } else {
        let prev = cfeature_skips(e.drop_last(), arch, label);
        if arch_ok(arch, e.last().1) {
            prev
        } else {
            prev.push("skipping "@ + label + " cfeature "@ + e.last().0)
        }
    }
}

/// How a report names the system `sys` of `emulator`.
pub open spec fn system_label(emulator: Seq<char>, sys: Seq<char>) -> Seq<char> {
    "system "@ + emulator + "/"@ + sys
}

/// How a report names the core `core` of `emulator`.
pub open spec fn core_label(emulator: Seq<char>, core: Seq<char>) -> Seq<char> {
    "core "@ + emulator + "/"@ + core
}

/// The reports of the systems `e` of `emulator` in es_features.cfg: their
/// shared features, then their custom features.
pub open spec fn xml_systems_skips(
    e: Seq<(Seq<char>, SystemFeatures)>,
    arch: Seq<char>,
    all: Seq<(Seq<char>, EmulatorFeatures)>,
    emulator: Seq<char>,
) -> Seq<Seq<char>>
    decreases e.len(),
{
    if e.len() == 0 {
        Seq::empty()
    } else {
        xml_systems_skips(e.drop_last(), arch, all, emulator) + shared_skips(e.last().1.shared@, arch, all)
            + cfeature_skips(cfeature_entries(e.last().1.cfeatures), arch, system_label(emulator, e.last().0))
    }
}

/// The reports of the cores `e` of `emulator` in es_features.cfg.
pub open spec fn xml_cores_skips(
    e: Seq<(Seq<char>, CoreFeatures)>,
    arch: Seq<char>,
    all: Seq<(Seq<char>, EmulatorFeatures)>,
    emulator: Seq<char>,
) -> Seq<Seq<char>>
    decreases e.len(),
{
    if e.len() == 0 {
        Seq::empty()
    } else {
        let c = e.last().1;
        xml_cores_skips(e.drop_last(), arch, all, emulator) + shared_skips(c.shared@, arch, all) + cfeature_skips(
            cfeature_entries(c.cfeatures),
            arch,
            core_label(emulator, e.last().0),
        ) + xml_systems_skips(system_feature_entries(c.systems), arch, all, emulator)
    }
}

/// The reports of one entry of the features in es_features.cfg: its cores, its
/// systems, its shared features, then its custom features.
pub open spec fn xml_emulator_skips(
    name: Seq<char>,
    d: EmulatorFeatures,
    arch: Seq<char>,
    all: Seq<(Seq<char>, EmulatorFeatures)>,
) -> Seq<Seq<char>> {
    xml_cores_skips(core_feature_entries(d.cores), arch, all, name) + xml_systems_skips(
        system_feature_entries(d.systems),
        arch,
        all,
        name,
    ) + shared_skips(d.shared@, arch, all) + cfeature_skips(cfeature_entries(d.cfeatures), arch, "emulator "@ + name)
}

/// The reports of the entries `e` of the features `all` in es_features.cfg.
pub open spec fn xml_skips(
    e: Seq<(Seq<char>, EmulatorFeatures)>,
    arch: Seq<char>,
    all: Seq<(Seq<char>, EmulatorFeatures)>,
) -> Seq<Seq<char>>
    decreases e.len(),
{
    if e.len() == 0 {
        Seq::empty()
    } else {
        xml_skips(e.drop_last(), arch, all) + xml_emulator_skips(e.last().0, e.last().1, arch, all)
    }
}

proof fn lemma_views_push(v: Seq<String>, s: String)
    ensures
        views(v.push(s)) == views(v).push(s@),
{
    assert(views(v.push(s)) =~= views(v).push(s@));
}

fn push_shared_skips(
    out: &mut Vec<String>,
    list: &Vec<String>,
    arch: &str,
    all_features: &IndexMap<String, EmulatorFeatures>,
)
    ensures
        views(final(out)@) == views(old(out)@) + shared_skips(list@, arch@, emulator_entries(*all_features)),
{
    let ghost start = views(out@);
    let shared_section = match emulators_get(all_features, "shared") {
        Some(s) => s,
        None => {
            assert(start + Seq::<Seq<char>>::empty() =~= start);
            return;
        },
    };
    let ghost defs = cfeature_entries(shared_section.cfeatures);
    let mut i: usize = 0;
    assert(start + shared_def_skips(list@.take(0), arch@, defs) =~= start);
    while i < list.len()
        invariant
            i <= list.len(),
            defs == cfeature_entries(shared_section.cfeatures),
            views(out@) == start + shared_def_skips(list@.take(i as int), arch@, defs),
        decreases list.len() - i,
    {
        proof {
            assert(list@.take(i + 1).drop_last() =~= list@.take(i as int));
            assert(list@.take(i + 1).last() == list@[i as int]);
        }
        let name = &list[i];
        match cfeatures_get(&shared_section.cfeatures, name.as_str()) {
            Some(feature) => {
                if !arch_valid(arch, feature) {
                    let mut m = owned("skipping shared ");
                    m.append(name.as_str());
                    let ghost before = out@;
                    out.push(m);
                    proof {
                        lemma_views_push(before, m);
                        assert(views(out@) =~= start + shared_def_skips(list@.take(i + 1), arch@, defs));
                    }
                }
            },
            None => {},
        }
        i = i + 1;
    }
    assert(list@.take(list.len() as int) =~= list@);
}

fn push_cfeature_skips(out: &mut Vec<String>, cfeatures: &IndexMap<String, CustomFeature>, arch: &str, label: &String)
    ensures
        views(final(out)@) == views(old(out)@) + cfeature_skips(cfeature_entries(*cfeatures), arch@, label@),
{
    let ghost start = views(out@);
    let ghost e = cfeature_entries(*cfeatures);
    let n = cfeatures_len(cfeatures);
    let mut i: usize = 0;
    assert(start + cfeature_skips(e.take(0), arch@, label@) =~= start);
    while i < n
        invariant
            i <= n,
            n == e.len(),
            e == cfeature_entries(*cfeatures),
            views(out@) == start + cfeature_skips(e.take(i as int), arch@, label@),
        decreases n - i,
    {
        let (name, feature) = cfeatures_get_index(cfeatures, i).unwrap();
        proof {
            assert(e.take(i + 1).drop_last() =~= e.take(i as int));
            assert(e.take(i + 1).last() == e[i as int]);
        }
        if !arch_valid(arch, feature) {
            let mut m = owned("skipping ");
            m.append(label.as_str());
            m.append(" cfeature ");
            m.append(name.as_str());
            let ghost before = out@;
            out.push(m);
            proof {
                lemma_views_push(before, m);
                assert(views(out@) =~= start + cfeature_skips(e.take(i + 1), arch@, label@));
            }
        }
        i = i + 1;
    }
    assert(e.take(n as int) =~= e);
}

fn label_of(kind: &str, emulator: &str, name: &str) -> (r: String)
    ensures
        r@ == kind@ + emulator@ + "/"@ + name@,
{
    let mut r = owned(kind);
    r.append(emulator);
    r.append("/");
    r.append(name);
    r
}

fn push_xml_systems_skips(
    out: &mut Vec<String>,
    systems: &IndexMap<String, SystemFeatures>,
    arch: &str,
    all_features: &IndexMap<String, EmulatorFeatures>,
    emulator: &str,
)
    ensures
        views(final(out)@) == views(old(out)@) + xml_systems_skips(
            system_feature_entries(*systems),
            arch@,
            emulator_entries(*all_features),
            emulator@,
        ),
{
    let ghost start = views(out@);
    let ghost e = system_feature_entries(*systems);
    let ghost all = emulator_entries(*all_features);
    let n = system_features_len(systems);
    let mut i: usize = 0;
    assert(start + xml_systems_skips(e.take(0), arch@, all, emulator@) =~= start);
    while i < n
        invariant
            i <= n,
            n == e.len(),
            e == system_feature_entries(*systems),
            all == emulator_entries(*all_features),
            views(out@) == start + xml_systems_skips(e.take(i as int), arch@, all, emulator@),
        decreases n - i,
    {
        let (name, sys) = system_features_get_index(systems, i).unwrap();
        proof {
            assert(e.take(i + 1).drop_last() =~= e.take(i as int));
            assert(e.take(i + 1).last() == e[i as int]);
        }
        push_shared_skips(out, &sys.shared, arch, all_features);
        let label = label_of("system ", emulator, name.as_str());
        push_cfeature_skips(out, &sys.cfeatures, arch, &label);
        proof {
            assert(views(out@) =~= start + xml_systems_skips(e.take(i + 1), arch@, all, emulator@));
        }
        i = i + 1;
    }
    assert(e.take(n as int) =~= e);
}

fn push_xml_cores_skips(
    out: &mut Vec<String>,
    cores: &IndexMap<String, CoreFeatures>,
    arch: &str,
    all_features: &IndexMap<String, EmulatorFeatures>,
    emulator: &str,
)
    ensures
        views(final(out)@) == views(old(out)@) + xml_cores_skips(
            core_feature_entries(*cores),
            arch@,
            emulator_entries(*all_features),
            emulator@,
        ),
{
    let ghost start = views(out@);
    let ghost e = core_feature_entries(*cores);
    let ghost all = emulator_entries(*all_features);
    let n = core_features_len(cores);
    let mut i: usize = 0;
    assert(start + xml_cores_skips(e.take(0), arch@, all, emulator@) =~= start);
    while i < n
        invariant
            i <= n,
            n == e.len(),
            e == core_feature_entries(*cores),
            all == emulator_entries(*all_features),
            views(out@) == start + xml_cores_skips(e.take(i as int), arch@, all, emulator@),
        decreases n - i,
    {
        let (name, core) = core_features_get_index(cores, i).unwrap();
        proof {
            assert(e.take(i + 1).drop_last() =~= e.take(i as int));
            assert(e.take(i + 1).last() == e[i as int]);
        }
        push_shared_skips(out, &core.shared, arch, all_features);
        let label = label_of("core ", emulator, name.as_str());
        push_cfeature_skips(out, &core.cfeatures, arch, &label);
        push_xml_systems_skips(out, &core.systems, arch, all_features, emulator);
        proof {
            assert(views(out@) =~= start + xml_cores_skips(e.take(i + 1), arch@, all, emulator@));
        }
        i = i + 1;
    }
    assert(e.take(n as int) =~= e);
}

/// The features that es_features.cfg leaves out on `arch`, reported in the
/// order the generator meets them.
pub fn feature_skips(features: &IndexMap<String, EmulatorFeatures>, arch: &str) -> (r: Vec<String>)
    ensures
        views(r@) == xml_skips(emulator_entries(*features), arch@, emulator_entries(*features)),
{
    let ghost all = emulator_entries(*features);
    let mut out: Vec<String> = Vec::new();
    let n = emulators_len(features);
    let mut i: usize = 0;
    assert(views(out@) =~= xml_skips(all.take(0), arch@, all));
    while i < n
        invariant
            i <= n,
            n == all.len(),
            all == emulator_entries(*features),
            views(out@) == xml_skips(all.take(i as int), arch@, all),
        decreases n - i,
    {
        let (name, data) = emulators_get_index(features, i).unwrap();
        proof {
            assert(all.take(i + 1).drop_last() =~= all.take(i as int));
            assert(all.take(i + 1).last() == all[i as int]);
        }
        push_xml_cores_skips(&mut out, &data.cores, arch, features, name.as_str());
        push_xml_systems_skips(&mut out, &data.systems, arch, features, name.as_str());
        push_shared_skips(&mut out, &data.shared, arch, features);
        let mut label = owned("emulator ");
        label.append(name.as_str());
        push_cfeature_skips(&mut out, &data.cfeatures, arch, &label);
        proof {
            assert(views(out@) =~= xml_skips(all.take(i + 1), arch@, all));
        }
        i = i + 1;
    }
    assert(all.take(n as int) =~= all);
    out
}

/// The reports of the systems `e` in es_features.json: their shared features.
pub open spec fn json_systems_skips(
    e: Seq<(Seq<char>, SystemFeatures)>,
    arch: Seq<char>,
    all: Seq<(Seq<char>, EmulatorFeatures)>,
) -> Seq<Seq<char>>
    decreases e.len(),
{
    if e.len() == 0 {
        Seq::empty()
    } else {
        json_systems_skips(e.drop_last(), arch, all) + shared_skips(e.last().1.shared@, arch, all)
    }
}

/// The reports of the cores `e` in es_features.json.
pub open spec fn json_cores_skips(
    e: Seq<(Seq<char>, CoreFeatures)>,
    arch: Seq<char>,
    all: Seq<(Seq<char>, EmulatorFeatures)>,
) -> Seq<Seq<char>>
    decreases e.len(),
{
    if e.len() == 0 {
        Seq::empty()
    } else {
        json_cores_skips(e.drop_last(), arch, all) + shared_skips(e.last().1.shared@, arch, all) + json_systems_skips(
            system_feature_entries(e.last().1.systems),
            arch,
            all,
        )
    }
}

/// The reports of one emulator in es_features.json: its shared features, its
/// cores, then its systems.
pub open spec fn json_emulator_skips(d: EmulatorFeatures, arch: Seq<char>, all: Seq<(Seq<char>, EmulatorFeatures)>) -> Seq<
    Seq<char>,
> {
    shared_skips(d.shared@, arch, all) + json_cores_skips(core_feature_entries(d.cores), arch, all) + json_systems_skips(
        system_feature_entries(d.systems),
        arch,
        all,
    )
}

/// The reports of the emulators among `e` (all but the `global` and `shared`
/// entries) in es_features.json.
pub open spec fn json_emulators_skips(
    e: Seq<(Seq<char>, EmulatorFeatures)>,
    arch: Seq<char>,
    all: Seq<(Seq<char>, EmulatorFeatures)>,
) -> Seq<Seq<char>>
    decreases e.len(),
{
    if e.len() == 0 {
        Seq::empty()
    } else {
        let prev = json_emulators_skips(e.drop_last(), arch, all);
        if e.last().0 == "global"@ || e.last().0 == "shared"@ {
            prev
        } else {
            prev + json_emulator_skips(e.last().1, arch, all)
        }
    }
}

/// The reports of es_features.json: the shared features of the `global`
/// section, then those of the emulators.
pub open spec fn json_skips(all: Seq<(Seq<char>, EmulatorFeatures)>, arch: Seq<char>) -> Seq<Seq<char>> {
    (match lookup(all, "global"@) {
        Some(g) => shared_skips(g.shared@, arch, all),
        None => Seq::empty(),
    }) + json_emulators_skips(all, arch, all)
}

fn push_json_systems_skips(
    out: &mut Vec<String>,
    systems: &IndexMap<String, SystemFeatures>,
    arch: &str,
    all_features: &IndexMap<String, EmulatorFeatures>,
)
    ensures
        views(final(out)@) == views(old(out)@) + json_systems_skips(
            system_feature_entries(*systems),
            arch@,
            emulator_entries(*all_features),
        ),
{
    let ghost start = views(out@);
    let ghost e = system_feature_entries(*systems);
    let ghost all = emulator_entries(*all_features);
    let n = system_features_len(systems);
    let mut i: usize = 0;
    assert(start + json_systems_skips(e.take(0), arch@, all) =~= start);
    while i < n
        invariant
            i <= n,
            n == e.len(),
            e == system_feature_entries(*systems),
            all == emulator_entries(*all_features),
            views(out@) == start + json_systems_skips(e.take(i as int), arch@, all),
        decreases n - i,
    {
        let (_, sys) = system_features_get_index(systems, i).unwrap();
        proof {
            assert(e.take(i + 1).drop_last() =~= e.take(i as int));
            assert(e.take(i + 1).last() == e[i as int]);
        }
        push_shared_skips(out, &sys.shared, arch, all_features);
        proof {
            assert(views(out@) =~= start + json_systems_skips(e.take(i + 1), arch@, all));
        }
        i = i + 1;
    }
    assert(e.take(n as int) =~= e);
}

fn push_json_cores_skips(
    out: &mut Vec<String>,
    cores: &IndexMap<String, CoreFeatures>,
    arch: &str,
    all_features: &IndexMap<String, EmulatorFeatures>,
)
    ensures
        views(final(out)@) == views(old(out)@) + json_cores_skips(
            core_feature_entries(*cores),
            arch@,
            emulator_entries(*all_features),
        ),
{
    let ghost start = views(out@);
    let ghost e = core_feature_entries(*cores);
    let ghost all = emulator_entries(*all_features);
    let n = core_features_len(cores);
    let mut i: usize = 0;
    assert(start + json_cores_skips(e.take(0), arch@, all) =~= start);
    while i < n
        invariant
            i <= n,
            n == e.len(),
            e == core_feature_entries(*cores),
            all == emulator_entries(*all_features),
            views(out@) == start + json_cores_skips(e.take(i as int), arch@, all),
        decreases n - i,
    {
        let (_, core) = core_features_get_index(cores, i).unwrap();
        proof {
            assert(e.take(i + 1).drop_last() =~= e.take(i as int));
            assert(e.take(i + 1).last() == e[i as int]);
        }
        push_shared_skips(out, &core.shared, arch, all_features);
        push_json_systems_skips(out, &core.systems, arch, all_features);
        proof {
            assert(views(out@) =~= start + json_cores_skips(e.take(i + 1), arch@, all));
        }
        i = i + 1;
    }
    assert(e.take(n as int) =~= e);
}

/// The shared features that es_features.json leaves out on `arch`, reported
/// in the order the generator meets them.
pub fn feature_json_skips(features: &IndexMap<String, EmulatorFeatures>, arch: &str) -> (r: Vec<String>)
    ensures
        views(r@) == json_skips(emulator_entries(*features), arch@),
{
    let ghost all = emulator_entries(*features);
    let mut out: Vec<String> = Vec::new();
    match emulators_get(features, "global") {
        Some(global) => push_shared_skips(&mut out, &global.shared, arch, features),
        None => {},
    }
    let ghost head = views(out@);
    let n = emulators_len(features);
    let mut i: usize = 0;
    assert(head + json_emulators_skips(all.take(0), arch@, all) =~= head);
    while i < n
        invariant
            i <= n,
            n == all.len(),
            all == emulator_entries(*features),
            views(out@) == head + json_emulators_skips(all.take(i as int), arch@, all),
        decreases n - i,
    {
        let (name, data) = emulators_get_index(features, i).unwrap();
        proof {
            assert(all.take(i + 1).drop_last() =~= all.take(i as int));
            assert(all.take(i + 1).last() == all[i as int]);
        }
        if !(str_eq(name.as_str(), "global") || str_eq(name.as_str(), "shared")) {
            push_shared_skips(&mut out, &data.shared, arch, features);
            push_json_cores_skips(&mut out, &data.cores, arch, features);
            push_json_systems_skips(&mut out, &data.systems, arch, features);
        }
        proof {
            assert(views(out@) =~= head + json_emulators_skips(all.take(i + 1), arch@, all));
        }
        i = i + 1;
    }
    assert(all.take(n as int) =~= all);
    out
}

} // verus!
