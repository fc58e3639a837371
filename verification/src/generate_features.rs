//! es_features.cfg: the XML list of emulators, cores and systems with their
//! features, filtered by architecture, recording the texts to translate.
use indexmap::IndexMap;
use vstd::prelude::*;
use vstd::string::*;

use crate::models::yaml_text;
use crate::models::yaml_value_to_string;
use crate::models::CoreFeatures;
use crate::models::CustomFeature;
use crate::models::EmulatorFeatures;
use crate::models::SystemFeatures;
use crate::models::YamlValue;
use crate::ordered::cfeature_entries;
use crate::ordered::cfeatures_get;
use crate::ordered::cfeatures_get_index;
use crate::ordered::cfeatures_len;
use crate::ordered::choice_entries;
use crate::ordered::choices_get_index;
use crate::ordered::choices_len;
use crate::ordered::core_feature_entries;
use crate::ordered::core_features_get_index;
use crate::ordered::core_features_len;
use crate::ordered::emulator_entries;
use crate::ordered::emulators_get;
use crate::ordered::emulators_get_index;
use crate::ordered::emulators_len;
use crate::ordered::lookup;
use crate::ordered::system_feature_entries;
use crate::ordered::system_features_get_index;
use crate::ordered::system_features_len;
use crate::ordered::translation_entries;
use crate::requirements::arch_ok;
use crate::requirements::arch_valid;
use crate::text::join;
use crate::text::make_spaces;
use crate::text::spaces;
use crate::text::spec_join;
use crate::text::str_eq;
use crate::text::views;
use crate::translate::add_translation;
use crate::translate::add_uses;
use crate::translate::lemma_add_uses_append;
use crate::translate::Place;
use crate::xml::escape;
use crate::xml::spec_escape;

verus! {

/// Translation comment entry: which emulator/core uses a translatable string.
pub struct TranslationComment {
    pub emulator: String,
    pub core: Option<String>,
}

/// The place that an emulator and an optional core name.
pub open spec fn place_of(emulator: Seq<char>, core: Option<Seq<char>>) -> Place {
    (emulator, core)
}

/// The view of an optional string slice.
pub open spec fn opt_str(o: Option<&str>) -> Option<Seq<char>> {
    match o {
        Some(s) => Some(s@),
        None => None,
    }
}

/// A list of strings joined with ", ".
pub open spec fn csv(v: Seq<String>) -> Seq<char> {
    spec_join(views(v), ", "@)
}

/// A list of strings as one comma-separated value.
fn array2vallist(arr: &Vec<String>) -> (r: String)
    ensures
        r@ == csv(arr@),
{
    join(arr, ", ")
}

/// An optional attribute: `prefix`, the escaped value and a closing quote.
pub open spec fn opt_attr(prefix: Seq<char>, o: Option<String>) -> Seq<char> {
    match o {
        Some(s) => prefix + spec_escape(s@) + "\""@,
        None => Seq::empty(),
    }
}

fn push_opt_attr(txt: &mut String, prefix: &str, o: &Option<String>)
    ensures
        final(txt)@ == old(txt)@ + opt_attr(prefix@, *o),
{
    match o {
        Some(s) => {
            txt.append(prefix);
            txt.append(escape(s.as_str()).as_str());
            txt.append("\"");
        },
        None => {
            assert(old(txt)@ + opt_attr(prefix@, *o) =~= old(txt)@);
        },
    }
}

/// The order attribute of a feature.
pub open spec fn order_attr(o: Option<YamlValue>) -> Seq<char> {
    match o {
        Some(v) => " order=\""@ + spec_escape(yaml_text(v)) + "\""@,
        None => Seq::empty(),
    }
}

/// The description of a feature, empty when it has none.
pub open spec fn description_of(f: CustomFeature) -> Seq<char> {
    match f.description {
        Some(d) => d@,
        None => Seq::empty(),
    }
}

/// The opening `<feature ...>` line of a custom feature.
pub open spec fn feature_open_text(sp: Seq<char>, key: Seq<char>, f: CustomFeature) -> Seq<char> {
    sp + "<feature name=\""@ + spec_escape(f.prompt@) + "\""@ + opt_attr(" submenu=\""@, f.submenu)
        + opt_attr(" group=\""@, f.group) + order_attr(f.order) + " value=\""@ + spec_escape(key)
        + "\" description=\""@ + spec_escape(description_of(f)) + "\""@ + opt_attr(
        " preset=\""@,
        f.preset,
    ) + opt_attr(" preset-parameters=\""@, f.preset_parameters) + ">\n"@
}

/// The `<choice>` lines of a feature.
pub open spec fn choices_text(sp: Seq<char>, e: Seq<(Seq<char>, YamlValue)>) -> Seq<char>
    decreases e.len(),
{
    if e.len() == 0 {
        Seq::empty()
    } else {
        choices_text(sp, e.drop_last()) + sp + "  <choice name=\""@ + spec_escape(e.last().0)
            + "\" value=\""@ + spec_escape(yaml_text(e.last().1)) + "\" />\n"@
    }
}

/// The texts a feature's choices record, all at `place`.
pub open spec fn choice_uses(e: Seq<(Seq<char>, YamlValue)>, place: Place) -> Seq<(Seq<char>, Place)>
    decreases e.len(),
{
    if e.len() == 0 {
        Seq::empty()
    } else {
        choice_uses(e.drop_last(), place).push((e.last().0, place))
    }
}

/// The `<feature>` element of a custom feature.
pub open spec fn feature_text(indent: nat, key: Seq<char>, f: CustomFeature) -> Seq<char> {
    let sp = spaces(indent);
    feature_open_text(sp, key, f) + (if f.preset is None {
        choices_text(sp, choice_entries(f.choices))
    } else {
        Seq::empty()
    }) + sp + "</feature>\n"@
}

/// The texts a feature records: its prompt, its description and, without a
/// preset, the names of its choices.
pub open spec fn feature_uses(f: CustomFeature, place: Place) -> Seq<(Seq<char>, Place)> {
    seq![(f.prompt@, place), (description_of(f), place)] + (if f.preset is None {
        choice_uses(choice_entries(f.choices), place)
    } else {
        Seq::empty()
    })
}

fn feature_open(spaces_txt: &String, key: &str, info: &CustomFeature) -> (r: String)
    ensures
        r@ == feature_open_text(spaces_txt@, key@, *info),
{
    let mut txt = String::new();
    txt.append(spaces_txt.as_str());
    txt.append("<feature name=\"");
    txt.append(escape(info.prompt.as_str()).as_str());
    txt.append("\"");
    push_opt_attr(&mut txt, " submenu=\"", &info.submenu);
    push_opt_attr(&mut txt, " group=\"", &info.group);
    match &info.order {
        Some(order) => {
            txt.append(" order=\"");
            txt.append(escape(yaml_value_to_string(order).as_str()).as_str());
            txt.append("\"");
        },
        None => {},
    }
    txt.append(" value=\"");
    txt.append(escape(key).as_str());
    txt.append("\" description=\"");
    let description = match &info.description {
        Some(d) => d.clone(),
        None => String::new(),
    };
    txt.append(escape(description.as_str()).as_str());
    txt.append("\"");
    push_opt_attr(&mut txt, " preset=\"", &info.preset);
    push_opt_attr(&mut txt, " preset-parameters=\"", &info.preset_parameters);
    txt.append(">\n");
    assert(txt@ =~= feature_open_text(spaces_txt@, key@, *info));
    txt
}

/// Generate a single <feature> XML element.
fn xml_feature(
    indent: usize,
    key: &str,
    info: &CustomFeature,
    to_translate: &mut IndexMap<String, Vec<TranslationComment>>,
    emulator: &str,
    core: Option<&str>,
) -> (r: String)
    ensures
        r@ == feature_text(indent as nat, key@, *info),
        translation_entries(*final(to_translate)) == add_uses(
            translation_entries(*old(to_translate)),
            feature_uses(*info, place_of(emulator@, opt_str(core))),
        ),
{
    let ghost place = place_of(emulator@, opt_str(core));
    let ghost e0 = translation_entries(*to_translate);
    let sp = make_spaces(indent);
    let mut txt = feature_open(&sp, key, info);
    let description = match &info.description {
        Some(d) => d.clone(),
        None => String::new(),
    };
    assert(description@ == description_of(*info));
    add_translation(to_translate, info.prompt.as_str(), emulator, core);
    let ghost e1 = translation_entries(*to_translate);
    add_translation(to_translate, description.as_str(), emulator, core);
    let ghost head = seq![(info.prompt@, place), (description_of(*info), place)];
    proof {
        let one = seq![(info.prompt@, place)];
        assert(head.drop_last() =~= one);
        assert(one.drop_last() =~= Seq::<(Seq<char>, Place)>::empty());
        assert(add_uses(e0, one.drop_last()) == e0);
        assert(one.last() == (info.prompt@, place));
        assert(add_uses(e0, one) == e1);
        assert(translation_entries(*to_translate) == add_uses(e0, head));
    }
    let ghost opened = txt@;
    if info.preset.is_none() {
        let n = choices_len(&info.choices);
        let ghost ce = choice_entries(info.choices);
        let mut i: usize = 0;
        while i < n
            invariant
                i <= n,
                n == ce.len(),
                ce == choice_entries(info.choices),
                txt@ == opened + choices_text(sp@, ce.take(i as int)),
                translation_entries(*to_translate) == add_uses(e0, head + choice_uses(ce.take(i as int), place)),
                place == place_of(emulator@, opt_str(core)),
            decreases n - i,
        {
            let (choice_name, choice_value) = choices_get_index(&info.choices, i).unwrap();
            proof {
                assert(ce.take(i + 1).drop_last() =~= ce.take(i as int));
                assert(ce.take(i + 1).last() == ce[i as int]);
            }
            txt.append(sp.as_str());
            txt.append("  <choice name=\"");
            txt.append(escape(choice_name.as_str()).as_str());
            txt.append("\" value=\"");
            txt.append(escape(yaml_value_to_string(choice_value).as_str()).as_str());
            txt.append("\" />\n");
            add_translation(to_translate, choice_name.as_str(), emulator, core);
            proof {
                let prev = head + choice_uses(ce.take(i as int), place);
                assert(prev.push((ce[i as int].0, place)) =~= head + choice_uses(ce.take(i + 1), place));
                assert(prev.push((ce[i as int].0, place)).drop_last() =~= prev);
                assert(txt@ =~= opened + choices_text(sp@, ce.take(i + 1)));
            }
            i = i + 1;
        }
        proof {
            assert(ce.take(n as int) =~= ce);
        }
    } else {
        proof {
            assert(txt@ =~= opened + Seq::<char>::empty());
            assert(head + Seq::<(Seq<char>, Place)>::empty() =~= head);
        }
    }
    txt.append(sp.as_str());
    txt.append("</feature>\n");
    proof {
        assert(txt@ =~= feature_text(indent as nat, key@, *info));
    }
    txt
}


/// The `<feature>` elements of the custom features offered on `arch`.
pub open spec fn cfeatures_text(e: Seq<(Seq<char>, CustomFeature)>, arch: Seq<char>, indent: nat) -> Seq<
    char,
>
    decreases e.len(),
{
    if e.len() == 0 {
        Seq::empty()
    } else if arch_ok(arch, e.last().1) {
        cfeatures_text(e.drop_last(), arch, indent) + feature_text(indent, e.last().0, e.last().1)
    } else {
        cfeatures_text(e.drop_last(), arch, indent)
    }
}

/// The texts that the custom features offered on `arch` record.
pub open spec fn cfeatures_uses(e: Seq<(Seq<char>, CustomFeature)>, arch: Seq<char>, place: Place) -> Seq<
    (Seq<char>, Place),
>
    decreases e.len(),
{
    if e.len() == 0 {
        Seq::empty()
    } else if arch_ok(arch, e.last().1) {
        cfeatures_uses(e.drop_last(), arch, place) + feature_uses(e.last().1, place)
    } else {
        cfeatures_uses(e.drop_last(), arch, place)
    }
}

/// Generate cfeatures XML for a given context.
fn gen_cfeatures(
    cfeatures: &IndexMap<String, CustomFeature>,
    arch: &str,
    indent: usize,
    to_translate: &mut IndexMap<String, Vec<TranslationComment>>,
    emulator: &str,
    core: Option<&str>,
) -> (r: String)
    ensures
        r@ == cfeatures_text(cfeature_entries(*cfeatures), arch@, indent as nat),
        translation_entries(*final(to_translate)) == add_uses(
            translation_entries(*old(to_translate)),
            cfeatures_uses(cfeature_entries(*cfeatures), arch@, place_of(emulator@, opt_str(core))),
        ),
{
    let ghost place = place_of(emulator@, opt_str(core));
    let ghost e0 = translation_entries(*to_translate);
    let ghost ce = cfeature_entries(*cfeatures);
    let mut txt = String::new();
    let n = cfeatures_len(cfeatures);
    let mut i: usize = 0;
    while i < n
        invariant
            i <= n,
            n == ce.len(),
            ce == cfeature_entries(*cfeatures),
            place == place_of(emulator@, opt_str(core)),
            txt@ == cfeatures_text(ce.take(i as int), arch@, indent as nat),
            translation_entries(*to_translate) == add_uses(e0, cfeatures_uses(ce.take(i as int), arch@, place)),
        decreases n - i,
    {
        let (cf_name, cf) = cfeatures_get_index(cfeatures, i).unwrap();
        proof {
            assert(ce.take(i + 1).drop_last() =~= ce.take(i as int));
            assert(ce.take(i + 1).last() == ce[i as int]);
        }
        if arch_valid(arch, cf) {
            let ghost before = translation_entries(*to_translate);
            let t = xml_feature(indent, cf_name.as_str(), cf, to_translate, emulator, core);
            txt.append(t.as_str());
            proof {
                lemma_add_uses_append(e0, cfeatures_uses(ce.take(i as int), arch@, place), feature_uses(*cf, place));
            }
        }
        i = i + 1;
    }
    proof {
        assert(ce.take(n as int) =~= ce);
    }
    txt
}

/// The `<sharedFeature>` lines for the names of `list` that the shared
/// section defines and offers on `arch`.
pub open spec fn shared_refs_text(
    list: Seq<String>,
    arch: Seq<char>,
    defs: Seq<(Seq<char>, CustomFeature)>,
    indent: nat,
) -> Seq<char>
    decreases list.len(),
{
    if list.len() == 0 {
        Seq::empty()
    } else {
        let prev = shared_refs_text(list.drop_last(), arch, defs, indent);
        let name = list.last()@;
        match lookup(defs, name) {
            Some(f) => if arch_ok(arch, f) {
                prev + spaces(indent) + "<sharedFeature value=\""@ + spec_escape(name) + "\" />\n"@
            } else {
                prev
            },
            None => prev,
        }
    }
}

/// The shared-feature references of a context; none when the features have no
/// `shared` section.
pub open spec fn shared_text(
    list: Seq<String>,
    arch: Seq<char>,
    all: Seq<(Seq<char>, EmulatorFeatures)>,
    indent: nat,
) -> Seq<char> {
    match lookup(all, "shared"@) {
        Some(sec) => shared_refs_text(list, arch, cfeature_entries(sec.cfeatures), indent),
        None => Seq::empty(),
    }
}

/// Generate shared feature references for a given system/core context.
fn gen_shared_features(
    shared_list: &Vec<String>,
    arch: &str,
    all_features: &IndexMap<String, EmulatorFeatures>,
    indent: usize,
) -> (r: String)
    ensures
        r@ == shared_text(shared_list@, arch@, emulator_entries(*all_features), indent as nat),
{
    let mut txt = String::new();
    let shared_section = match emulators_get(all_features, "shared") {
        Some(s) => s,
        None => {
            return txt;
        },
    };
    let ghost defs = cfeature_entries(shared_section.cfeatures);
    let sp = make_spaces(indent);
    let mut i: usize = 0;
    while i < shared_list.len()
        invariant
            i <= shared_list.len(),
            defs == cfeature_entries(shared_section.cfeatures),
            sp@ == spaces(indent as nat),
            txt@ == shared_refs_text(shared_list@.take(i as int), arch@, defs, indent as nat),
        decreases shared_list.len() - i,
    {
        proof {
            assert(shared_list@.take(i + 1).drop_last() =~= shared_list@.take(i as int));
            assert(shared_list@.take(i + 1).last() == shared_list@[i as int]);
        }
        let shared_name = &shared_list[i];
        match cfeatures_get(&shared_section.cfeatures, shared_name.as_str()) {
            Some(feature) => {
                if arch_valid(arch, feature) {
                    txt.append(sp.as_str());
                    txt.append("<sharedFeature value=\"");
                    txt.append(escape(shared_name.as_str()).as_str());
                    txt.append("\" />\n");
                }
            },
            None => {},
        }
        i = i + 1;
    }
    proof {
        assert(shared_list@.take(shared_list.len() as int) =~= shared_list@);
    }
    txt
}


/// One `<system>` element inside a `<systems>` block at `base`.
pub open spec fn system_item_text(
    name: Seq<char>,
    sys: SystemFeatures,
    arch: Seq<char>,
    all: Seq<(Seq<char>, EmulatorFeatures)>,
    base: nat,
) -> Seq<char> {
    spaces(base) + "  <system name=\""@ + spec_escape(name) + "\" features=\""@ + spec_escape(csv(sys.features@))
        + "\" >\n"@ + shared_text(sys.shared@, arch, all, base + 4) + cfeatures_text(
        cfeature_entries(sys.cfeatures),
        arch,
        base + 4,
    ) + spaces(base) + "  </system>\n"@
}

/// The `<system>` elements of a `<systems>` block at `base`.
pub open spec fn system_items_text(
    e: Seq<(Seq<char>, SystemFeatures)>,
    arch: Seq<char>,
    all: Seq<(Seq<char>, EmulatorFeatures)>,
    base: nat,
) -> Seq<char>
    decreases e.len(),
{
    if e.len() == 0 {
        Seq::empty()
    } else {
        system_items_text(e.drop_last(), arch, all, base) + system_item_text(e.last().0, e.last().1, arch, all, base)
    }
}

/// A `<systems>` block at `base`.
pub open spec fn systems_block_text(
    e: Seq<(Seq<char>, SystemFeatures)>,
    arch: Seq<char>,
    all: Seq<(Seq<char>, EmulatorFeatures)>,
    base: nat,
) -> Seq<char> {
    spaces(base) + "<systems>\n"@ + system_items_text(e, arch, all, base) + spaces(base) + "</systems>\n"@
}

/// The texts that the systems' custom features record.
pub open spec fn systems_uses(e: Seq<(Seq<char>, SystemFeatures)>, arch: Seq<char>, place: Place) -> Seq<
    (Seq<char>, Place),
>
    decreases e.len(),
{
    if e.len() == 0 {
        Seq::empty()
    } else {
        systems_uses(e.drop_last(), arch, place) + cfeatures_uses(cfeature_entries(e.last().1.cfeatures), arch, place)
    }
}

/// Generate the <systems> block within a core or emulator context.
fn gen_systems_block(
    systems: &IndexMap<String, SystemFeatures>,
    arch: &str,
    all_features: &IndexMap<String, EmulatorFeatures>,
    to_translate: &mut IndexMap<String, Vec<TranslationComment>>,
    emulator: &str,
    core: Option<&str>,
    indent_base: usize,
) -> (r: String)
    requires
        indent_base + 4 <= usize::MAX,
    ensures
        r@ == systems_block_text(system_feature_entries(*systems), arch@, emulator_entries(*all_features), indent_base as nat),
        translation_entries(*final(to_translate)) == add_uses(
            translation_entries(*old(to_translate)),
            systems_uses(system_feature_entries(*systems), arch@, place_of(emulator@, opt_str(core))),
        ),
{
    let ghost place = place_of(emulator@, opt_str(core));
    let ghost e0 = translation_entries(*to_translate);
    let ghost se = system_feature_entries(*systems);
    let ghost all = emulator_entries(*all_features);
    let sp = make_spaces(indent_base);
    let mut txt = String::new();
    txt.append(sp.as_str());
    txt.append("<systems>\n");
    let ghost head = txt@;
    let n = system_features_len(systems);
    let mut i: usize = 0;
    while i < n
        invariant
            i <= n,
            n == se.len(),
            indent_base + 4 <= usize::MAX,
            se == system_feature_entries(*systems),
            all == emulator_entries(*all_features),
            place == place_of(emulator@, opt_str(core)),
            sp@ == spaces(indent_base as nat),
            txt@ == head + system_items_text(se.take(i as int), arch@, all, indent_base as nat),
            translation_entries(*to_translate) == add_uses(e0, systems_uses(se.take(i as int), arch@, place)),
        decreases n - i,
    {
        let (sys_name, sys) = system_features_get_index(systems, i).unwrap();
        proof {
            assert(se.take(i + 1).drop_last() =~= se.take(i as int));
            assert(se.take(i + 1).last() == se[i as int]);
        }
        let ghost before = txt@;
        txt.append(sp.as_str());
        txt.append("  <system name=\"");
        txt.append(escape(sys_name.as_str()).as_str());
        txt.append("\" features=\"");
        txt.append(escape(array2vallist(&sys.features).as_str()).as_str());
        txt.append("\" >\n");
        txt.append(gen_shared_features(&sys.shared, arch, all_features, indent_base + 4).as_str());
        txt.append(gen_cfeatures(&sys.cfeatures, arch, indent_base + 4, to_translate, emulator, core).as_str());
        txt.append(sp.as_str());
        txt.append("  </system>\n");
        proof {
            assert(txt@ =~= before + system_item_text(sys_name@, *sys, arch@, all, indent_base as nat));
            lemma_add_uses_append(e0, systems_uses(se.take(i as int), arch@, place), cfeatures_uses(cfeature_entries(sys.cfeatures), arch@, place));
        }
        i = i + 1;
    }
    txt.append(sp.as_str());
    txt.append("</systems>\n");
    proof {
        assert(se.take(n as int) =~= se);
        assert(txt@ =~= systems_block_text(se, arch@, all, indent_base as nat));
    }
    txt
}


/// Whether a core has anything inside its element.
pub open spec fn core_has_content(c: CoreFeatures) -> bool {
    cfeature_entries(c.cfeatures).len() > 0 || c.shared@.len() > 0 || system_feature_entries(c.systems).len() > 0
}

/// The `<core>` element of a core.
pub open spec fn core_text(
    name: Seq<char>,
    c: CoreFeatures,
    arch: Seq<char>,
    all: Seq<(Seq<char>, EmulatorFeatures)>,
) -> Seq<char> {
    let head = "      <core name=\""@ + spec_escape(name) + "\" features=\""@ + spec_escape(csv(c.features@));
    if core_has_content(c) {
        head + "\">\n"@ + shared_text(c.shared@, arch, all, 8) + cfeatures_text(cfeature_entries(c.cfeatures), arch, 8)
            + (if system_feature_entries(c.systems).len() > 0 {
            systems_block_text(system_feature_entries(c.systems), arch, all, 8)
        } else {
            Seq::empty()
        }) + "      </core>\n"@
    } else {
        head + "\" />\n"@
    }
}

/// The texts that a core records.
pub open spec fn core_uses(c: CoreFeatures, arch: Seq<char>, place: Place) -> Seq<(Seq<char>, Place)> {
    if core_has_content(c) {
        cfeatures_uses(cfeature_entries(c.cfeatures), arch, place) + (if system_feature_entries(c.systems).len() > 0 {
            systems_uses(system_feature_entries(c.systems), arch, place)
        } else {
            Seq::empty()
        })
    } else {
        Seq::empty()
    }
}

/// The `<core>` elements of an emulator.
pub open spec fn cores_text(
    e: Seq<(Seq<char>, CoreFeatures)>,
    arch: Seq<char>,
    all: Seq<(Seq<char>, EmulatorFeatures)>,
) -> Seq<char>
    decreases e.len(),
{
    if e.len() == 0 {
        Seq::empty()
    } else {
        cores_text(e.drop_last(), arch, all) + core_text(e.last().0, e.last().1, arch, all)
    }
}

/// The texts that the cores of `emulator` record.
pub open spec fn cores_uses(e: Seq<(Seq<char>, CoreFeatures)>, arch: Seq<char>, emulator: Seq<char>) -> Seq<
    (Seq<char>, Place),
>
    decreases e.len(),
{
    if e.len() == 0 {
        Seq::empty()
    } else {
        cores_uses(e.drop_last(), arch, emulator) + core_uses(e.last().1, arch, place_of(emulator, Some(e.last().0)))
    }
}

fn gen_core(
    core_name: &str,
    core_data: &CoreFeatures,
    arch: &str,
    all_features: &IndexMap<String, EmulatorFeatures>,
    to_translate: &mut IndexMap<String, Vec<TranslationComment>>,
    emulator: &str,
) -> (r: String)
    ensures
        r@ == core_text(core_name@, *core_data, arch@, emulator_entries(*all_features)),
        translation_entries(*final(to_translate)) == add_uses(
            translation_entries(*old(to_translate)),
            core_uses(*core_data, arch@, place_of(emulator@, Some(core_name@))),
        ),
{
    let ghost e0 = translation_entries(*to_translate);
    let ghost all = emulator_entries(*all_features);
    let ghost place = place_of(emulator@, Some(core_name@));
    let core_features_txt = array2vallist(&core_data.features);
    let n_cf = cfeatures_len(&core_data.cfeatures);
    let n_sys = system_features_len(&core_data.systems);
    let core_has_content = n_cf > 0 || core_data.shared.len() > 0 || n_sys > 0;
    let mut txt = String::new();
    txt.append("      <core name=\"");
    txt.append(escape(core_name).as_str());
    txt.append("\" features=\"");
    txt.append(escape(core_features_txt.as_str()).as_str());
    if core_has_content {
        txt.append("\">\n");
        txt.append(gen_shared_features(&core_data.shared, arch, all_features, 8).as_str());
        txt.append(gen_cfeatures(&core_data.cfeatures, arch, 8, to_translate, emulator, Some(core_name)).as_str());
        let ghost e1 = translation_entries(*to_translate);
        if n_sys > 0 {
            txt.append(gen_systems_block(&core_data.systems, arch, all_features, to_translate, emulator, Some(core_name), 8).as_str());
            proof {
                lemma_add_uses_append(e0, cfeatures_uses(cfeature_entries(core_data.cfeatures), arch@, place),
                    systems_uses(system_feature_entries(core_data.systems), arch@, place));
            }
        } else {
            proof {
                let a = cfeatures_uses(cfeature_entries(core_data.cfeatures), arch@, place);
                assert(a + Seq::<(Seq<char>, Place)>::empty() =~= a);
            }
        }
        txt.append("      </core>\n");
        proof {
            assert(txt@ =~= core_text(core_name@, *core_data, arch@, all));
        }
    } else {
        txt.append("\" />\n");
        proof {
            assert(txt@ =~= core_text(core_name@, *core_data, arch@, all));
            assert(add_uses(e0, Seq::<(Seq<char>, Place)>::empty()) == e0);
        }
    }
    txt
}

/// One `<system>` element directly inside an emulator.
pub open spec fn emulator_system_text(
    name: Seq<char>,
    sys: SystemFeatures,
    arch: Seq<char>,
    all: Seq<(Seq<char>, EmulatorFeatures)>,
) -> Seq<char> {
    "      <system name=\""@ + spec_escape(name) + "\" features=\""@ + spec_escape(csv(sys.features@)) + "\" >\n"@
        + shared_text(sys.shared@, arch, all, 4) + cfeatures_text(cfeature_entries(sys.cfeatures), arch, 8)
        + "      </system>\n"@
}

/// The `<system>` elements directly inside an emulator.
pub open spec fn emulator_systems_text(
    e: Seq<(Seq<char>, SystemFeatures)>,
    arch: Seq<char>,
    all: Seq<(Seq<char>, EmulatorFeatures)>,
) -> Seq<char>
    decreases e.len(),
{
    if e.len() == 0 {
        Seq::empty()
    } else {
        emulator_systems_text(e.drop_last(), arch, all) + emulator_system_text(e.last().0, e.last().1, arch, all)
    }
}

fn gen_emulator_systems(
    systems: &IndexMap<String, SystemFeatures>,
    arch: &str,
    all_features: &IndexMap<String, EmulatorFeatures>,
    to_translate: &mut IndexMap<String, Vec<TranslationComment>>,
    emulator: &str,
) -> (r: String)
    ensures
        r@ == emulator_systems_text(system_feature_entries(*systems), arch@, emulator_entries(*all_features)),
        translation_entries(*final(to_translate)) == add_uses(
            translation_entries(*old(to_translate)),
            systems_uses(system_feature_entries(*systems), arch@, place_of(emulator@, None)),
        ),
{
    let ghost place = place_of(emulator@, None);
    let ghost e0 = translation_entries(*to_translate);
    let ghost se = system_feature_entries(*systems);
    let ghost all = emulator_entries(*all_features);
    let mut txt = String::new();
    let n = system_features_len(systems);
    let mut i: usize = 0;
    while i < n
        invariant
            i <= n,
            n == se.len(),
            se == system_feature_entries(*systems),
            all == emulator_entries(*all_features),
            place == place_of(emulator@, None),
            txt@ == emulator_systems_text(se.take(i as int), arch@, all),
            translation_entries(*to_translate) == add_uses(e0, systems_uses(se.take(i as int), arch@, place)),
        decreases n - i,
    {
        let (sys_name, sys_data) = system_features_get_index(systems, i).unwrap();
        proof {
            assert(se.take(i + 1).drop_last() =~= se.take(i as int));
            assert(se.take(i + 1).last() == se[i as int]);
        }
        let ghost before = txt@;
        txt.append("      <system name=\"");
        txt.append(escape(sys_name.as_str()).as_str());
        txt.append("\" features=\"");
        txt.append(escape(array2vallist(&sys_data.features).as_str()).as_str());
        txt.append("\" >\n");
        txt.append(gen_shared_features(&sys_data.shared, arch, all_features, 4).as_str());
        txt.append(gen_cfeatures(&sys_data.cfeatures, arch, 8, to_translate, emulator, None).as_str());
        txt.append("      </system>\n");
        proof {
            assert(txt@ =~= before + emulator_system_text(sys_name@, *sys_data, arch@, all));
            lemma_add_uses_append(e0, systems_uses(se.take(i as int), arch@, place), cfeatures_uses(cfeature_entries(sys_data.cfeatures), arch@, place));
        }
        i = i + 1;
    }
    proof {
        assert(se.take(n as int) =~= se);
    }
    txt
}


/// Whether an emulator has anything inside its element.
pub open spec fn emulator_has_content(d: EmulatorFeatures) -> bool {
    core_feature_entries(d.cores).len() > 0 || system_feature_entries(d.systems).len() > 0
        || cfeature_entries(d.cfeatures).len() > 0 || d.shared@.len() > 0
}

/// The opening tag of an emulator entry: `global` and `shared` are sections.
pub open spec fn emulator_open_text(name: Seq<char>, d: EmulatorFeatures) -> Seq<char> {
    if name == "global"@ {
        "  <globalFeatures"@
    } else if name == "shared"@ {
        "  <sharedFeatures"@
    } else {
        "  <emulator name=\""@ + spec_escape(name) + "\" features=\""@ + spec_escape(csv(d.features@)) + "\""@
    }
}

/// The closing tag of an emulator entry.
pub open spec fn emulator_close_text(name: Seq<char>) -> Seq<char> {
    if name == "global"@ {
        "  </globalFeatures>\n"@
    } else if name == "shared"@ {
        "  </sharedFeatures>\n"@
    } else {
        "  </emulator>\n"@
    }
}

/// The element of one entry of the features.
pub open spec fn emulator_text(
    name: Seq<char>,
    d: EmulatorFeatures,
    arch: Seq<char>,
    all: Seq<(Seq<char>, EmulatorFeatures)>,
) -> Seq<char> {
    if !emulator_has_content(d) {
        emulator_open_text(name, d) + " />\n"@
    } else {
        emulator_open_text(name, d) + ">\n"@ + (if core_feature_entries(d.cores).len() > 0 {
            "    <cores>\n"@ + cores_text(core_feature_entries(d.cores), arch, all) + "    </cores>\n"@
        } else {
            Seq::empty()
        }) + (if system_feature_entries(d.systems).len() > 0 {
            "    <systems>\n"@ + emulator_systems_text(system_feature_entries(d.systems), arch, all)
                + "    </systems>\n"@
        } else {
            Seq::empty()
        }) + shared_text(d.shared@, arch, all, 4) + cfeatures_text(cfeature_entries(d.cfeatures), arch, 4)
            + emulator_close_text(name)
    }
}

/// The texts that one entry of the features records.
pub open spec fn emulator_uses(name: Seq<char>, d: EmulatorFeatures, arch: Seq<char>) -> Seq<(Seq<char>, Place)> {
    if !emulator_has_content(d) {
        Seq::empty()
    } else {
        cores_uses(core_feature_entries(d.cores), arch, name) + systems_uses(
            system_feature_entries(d.systems),
            arch,
            place_of(name, None),
        ) + cfeatures_uses(cfeature_entries(d.cfeatures), arch, place_of(name, None))
    }
}

fn gen_cores(
    cores: &IndexMap<String, CoreFeatures>,
    arch: &str,
    all_features: &IndexMap<String, EmulatorFeatures>,
    to_translate: &mut IndexMap<String, Vec<TranslationComment>>,
    emulator: &str,
) -> (r: String)
    ensures
        r@ == cores_text(core_feature_entries(*cores), arch@, emulator_entries(*all_features)),
        translation_entries(*final(to_translate)) == add_uses(
            translation_entries(*old(to_translate)),
            cores_uses(core_feature_entries(*cores), arch@, emulator@),
        ),
{
    let ghost e0 = translation_entries(*to_translate);
    let ghost ce = core_feature_entries(*cores);
    let ghost all = emulator_entries(*all_features);
    let mut txt = String::new();
    let n = core_features_len(cores);
    let mut i: usize = 0;
    while i < n
        invariant
            i <= n,
            n == ce.len(),
            ce == core_feature_entries(*cores),
            all == emulator_entries(*all_features),
            txt@ == cores_text(ce.take(i as int), arch@, all),
            translation_entries(*to_translate) == add_uses(e0, cores_uses(ce.take(i as int), arch@, emulator@)),
        decreases n - i,
    {
        let (core_name, core_data) = core_features_get_index(cores, i).unwrap();
        proof {
            assert(ce.take(i + 1).drop_last() =~= ce.take(i as int));
            assert(ce.take(i + 1).last() == ce[i as int]);
        }
        txt.append(gen_core(core_name.as_str(), core_data, arch, all_features, to_translate, emulator).as_str());
        proof {
            lemma_add_uses_append(e0, cores_uses(ce.take(i as int), arch@, emulator@),
                core_uses(*core_data, arch@, place_of(emulator@, Some(core_name@))));
        }
        i = i + 1;
    }
    proof {
        assert(ce.take(n as int) =~= ce);
    }
    txt
}

fn gen_emulator(
    emulator: &str,
    emu_data: &EmulatorFeatures,
    arch: &str,
    all_features: &IndexMap<String, EmulatorFeatures>,
    to_translate: &mut IndexMap<String, Vec<TranslationComment>>,
) -> (r: String)
    ensures
        r@ == emulator_text(emulator@, *emu_data, arch@, emulator_entries(*all_features)),
        translation_entries(*final(to_translate)) == add_uses(
            translation_entries(*old(to_translate)),
            emulator_uses(emulator@, *emu_data, arch@),
        ),
{
    let ghost e0 = translation_entries(*to_translate);
    let ghost all = emulator_entries(*all_features);
    let n_cores = core_features_len(&emu_data.cores);
    let n_sys = system_features_len(&emu_data.systems);
    let n_cf = cfeatures_len(&emu_data.cfeatures);
    let has_content = n_cores > 0 || n_sys > 0 || n_cf > 0 || emu_data.shared.len() > 0;
    let is_global = str_eq(emulator, "global");
    let is_shared = str_eq(emulator, "shared");
    let mut txt = String::new();
    if is_global {
        txt.append("  <globalFeatures");
    } else if is_shared {
        txt.append("  <sharedFeatures");
    } else {
        txt.append("  <emulator name=\"");
        txt.append(escape(emulator).as_str());
        txt.append("\" features=\"");
        txt.append(escape(array2vallist(&emu_data.features).as_str()).as_str());
        txt.append("\"");
    }
    assert(txt@ =~= emulator_open_text(emulator@, *emu_data));
    if !has_content {
        txt.append(" />\n");
        proof {
            assert(add_uses(e0, Seq::<(Seq<char>, Place)>::empty()) == e0);
        }
        return txt;
    }
    txt.append(">\n");
    let ghost opened = txt@;
    let ghost u1 = cores_uses(core_feature_entries(emu_data.cores), arch@, emulator@);
    let ghost u2 = systems_uses(system_feature_entries(emu_data.systems), arch@, place_of(emulator@, None));
    let ghost u3 = cfeatures_uses(cfeature_entries(emu_data.cfeatures), arch@, place_of(emulator@, None));
    let ghost t1 = if n_cores > 0 {
        "    <cores>\n"@ + cores_text(core_feature_entries(emu_data.cores), arch@, all) + "    </cores>\n"@
    } else {
        Seq::<char>::empty()
    };
    if n_cores > 0 {
        txt.append("    <cores>\n");
        txt.append(gen_cores(&emu_data.cores, arch, all_features, to_translate, emulator).as_str());
        txt.append("    </cores>\n");
    } else {
        proof {
            assert(u1 =~= Seq::<(Seq<char>, Place)>::empty());
            assert(add_uses(e0, u1) == e0);
        }
    }
    assert(txt@ =~= opened + t1);
    let ghost e1 = translation_entries(*to_translate);
    assert(e1 == add_uses(e0, u1));
    let ghost t2 = if n_sys > 0 {
        "    <systems>\n"@ + emulator_systems_text(system_feature_entries(emu_data.systems), arch@, all)
            + "    </systems>\n"@
    } else {
        Seq::<char>::empty()
    };
    if n_sys > 0 {
        txt.append("    <systems>\n");
        txt.append(gen_emulator_systems(&emu_data.systems, arch, all_features, to_translate, emulator).as_str());
        txt.append("    </systems>\n");
    } else {
        proof {
            assert(u2 =~= Seq::<(Seq<char>, Place)>::empty());
            assert(add_uses(e1, u2) == e1);
        }
    }
    assert(txt@ =~= opened + t1 + t2);
    proof {
        lemma_add_uses_append(e0, u1, u2);
    }
    txt.append(gen_shared_features(&emu_data.shared, arch, all_features, 4).as_str());
    txt.append(gen_cfeatures(&emu_data.cfeatures, arch, 4, to_translate, emulator, None).as_str());
    proof {
        lemma_add_uses_append(e0, u1 + u2, u3);
    }
    if is_global {
        txt.append("  </globalFeatures>\n");
    } else if is_shared {
        txt.append("  </sharedFeatures>\n");
    } else {
        txt.append("  </emulator>\n");
    }
    assert(txt@ =~= emulator_text(emulator@, *emu_data, arch@, all));
    txt
}

/// The es_features.cfg document.
pub open spec fn features_doc_text(all: Seq<(Seq<char>, EmulatorFeatures)>, arch: Seq<char>) -> Seq<char> {
    "<?xml version=\"1.0\" encoding=\"UTF-8\" ?>\n"@ + "<features>\n"@ + emulators_text(all, arch, all)
        + "</features>\n"@
}

/// The elements of the entries `e` of the features `all`.
pub open spec fn emulators_text(
    e: Seq<(Seq<char>, EmulatorFeatures)>,
    arch: Seq<char>,
    all: Seq<(Seq<char>, EmulatorFeatures)>,
) -> Seq<char>
    decreases e.len(),
{
    if e.len() == 0 {
        Seq::empty()
    } else {
        emulators_text(e.drop_last(), arch, all) + emulator_text(e.last().0, e.last().1, arch, all)
    }
}

/// The texts that the entries `e` record, in order.
pub open spec fn emulators_uses(e: Seq<(Seq<char>, EmulatorFeatures)>, arch: Seq<char>) -> Seq<
    (Seq<char>, Place),
>
    decreases e.len(),
{
    if e.len() == 0 {
        Seq::empty()
    } else {
        emulators_uses(e.drop_last(), arch) + emulator_uses(e.last().0, e.last().1, arch)
    }
}

/// Generate the complete es_features.cfg XML content, recording in
/// `to_translate` each text of a feature offered on `arch`.
pub fn generate(
    features: &IndexMap<String, EmulatorFeatures>,
    arch: &str,
    to_translate: &mut IndexMap<String, Vec<TranslationComment>>,
) -> (r: String)
    ensures
        r@ == features_doc_text(emulator_entries(*features), arch@),
        translation_entries(*final(to_translate)) == add_uses(
            translation_entries(*old(to_translate)),
            emulators_uses(emulator_entries(*features), arch@),
        ),
{
    let ghost e0 = translation_entries(*to_translate);
    let ghost all = emulator_entries(*features);
    let mut txt = String::new();
    txt.append("<?xml version=\"1.0\" encoding=\"UTF-8\" ?>\n");
    txt.append("<features>\n");
    let ghost head = txt@;
    let n = emulators_len(features);
    let mut i: usize = 0;
    while i < n
        invariant
            i <= n,
            n == all.len(),
            all == emulator_entries(*features),
            txt@ == head + emulators_text(all.take(i as int), arch@, all),
            translation_entries(*to_translate) == add_uses(e0, emulators_uses(all.take(i as int), arch@)),
        decreases n - i,
    {
        let (emulator, emu_data) = emulators_get_index(features, i).unwrap();
        proof {
            assert(all.take(i + 1).drop_last() =~= all.take(i as int));
            assert(all.take(i + 1).last() == all[i as int]);
        }
        txt.append(gen_emulator(emulator.as_str(), emu_data, arch, features, to_translate).as_str());
        proof {
            lemma_add_uses_append(e0, emulators_uses(all.take(i as int), arch@), emulator_uses(emulator@, *emu_data, arch@));
        }
        i = i + 1;
    }
    txt.append("</features>\n");
    proof {
        assert(all.take(n as int) =~= all);
        assert(txt@ =~= features_doc_text(all, arch@));
    }
    txt
}

} // verus!
