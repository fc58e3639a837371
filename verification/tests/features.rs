use es_system::generate_features::{generate, TranslationComment};
use es_system::generate_json::{generate_features, OrderJson};
use es_system::models::{CoreFeatures, CustomFeature, EmulatorFeatures, SystemFeatures, YamlValue};
use es_system::skips::{feature_json_skips, feature_skips};
use es_system::translations::find_all;
use indexmap::IndexMap;

fn strings(v: &[&str]) -> Vec<String> {
    v.iter().map(|s| s.to_string()).collect()
}

fn cf(prompt: &str) -> CustomFeature {
    CustomFeature {
        prompt: prompt.to_string(),
        description: None,
        group: None,
        submenu: None,
        order: None,
        preset: None,
        preset_parameters: None,
        choices: IndexMap::new(),
        archs_include: Vec::new(),
        archs_exclude: Vec::new(),
    }
}

fn emulator() -> EmulatorFeatures {
    EmulatorFeatures {
        features: Vec::new(),
        shared: Vec::new(),
        cfeatures: IndexMap::new(),
        cores: IndexMap::new(),
        systems: IndexMap::new(),
    }
}

fn core_features() -> CoreFeatures {
    CoreFeatures { features: Vec::new(), shared: Vec::new(), cfeatures: IndexMap::new(), systems: IndexMap::new() }
}

fn sys() -> SystemFeatures {
    SystemFeatures { features: Vec::new(), shared: Vec::new(), cfeatures: IndexMap::new() }
}

/// shared: one shared feature `vsync` (x86_64 only);
/// global: refers to `vsync`, defines `ratio` with two choices;
/// libretro: features, one core `snes9x` with a cfeature and a system, one system `nes`.
fn sample() -> IndexMap<String, EmulatorFeatures> {
    let mut all = IndexMap::new();

    let mut shared = emulator();
    let mut vsync = cf("VSYNC");
    vsync.archs_include = strings(&["x86_64"]);
    vsync.choices.insert("On".to_string(), YamlValue::Bool(true));
    shared.cfeatures.insert("vsync".to_string(), vsync);
    all.insert("shared".to_string(), shared);

    let mut global = emulator();
    global.shared = strings(&["vsync", "missing"]);
    let mut ratio = cf("GAME ASPECT RATIO");
    ratio.description = Some("Force the \"ratio\"".to_string());
    ratio.group = Some("IMAGE".to_string());
    ratio.order = Some(YamlValue::Int(3));
    ratio.choices.insert("4/3".to_string(), YamlValue::Str("4/3".to_string()));
    ratio.choices.insert("Auto".to_string(), YamlValue::Null);
    global.cfeatures.insert("ratio".to_string(), ratio);
    all.insert("global".to_string(), global);

    let mut libretro = emulator();
    libretro.features = strings(&["netplay", "rewind"]);
    let mut snes9x = core_features();
    snes9x.features = strings(&["cheevos"]);
    let mut region = cf("REGION");
    region.preset = Some("hidden".to_string());
    region.choices.insert("PAL".to_string(), YamlValue::Int(1));
    snes9x.cfeatures.insert("snes9x_region".to_string(), region);
    let mut snes_sys = sys();
    snes_sys.shared = strings(&["vsync"]);
    snes9x.systems.insert("snes".to_string(), snes_sys);
    libretro.cores.insert("snes9x".to_string(), snes9x);
    libretro.cores.insert("fceumm".to_string(), core_features());
    let mut nes = sys();
    nes.features = strings(&["padtokeyboard"]);
    let mut palette = cf("PALETTE");
    palette.order = Some(YamlValue::Str("x1".to_string()));
    palette.archs_exclude = strings(&["bcm2711"]);
    nes.cfeatures.insert("nes_palette".to_string(), palette);
    libretro.systems.insert("nes".to_string(), nes);
    all.insert("libretro".to_string(), libretro);

    all.insert("mame".to_string(), emulator());
    all
}

#[test]
fn features_xml_exact() {
    let features = sample();
    let mut to_translate: IndexMap<String, Vec<TranslationComment>> = IndexMap::new();
    let xml = generate(&features, "x86_64", &mut to_translate);
    let expected = [
        "<?xml version=\"1.0\" encoding=\"UTF-8\" ?>\n",
        "<features>\n",
        "  <sharedFeatures>\n",
        "    <feature name=\"VSYNC\" value=\"vsync\" description=\"\">\n",
        "      <choice name=\"On\" value=\"True\" />\n",
        "    </feature>\n",
        "  </sharedFeatures>\n",
        "  <globalFeatures>\n",
        "    <sharedFeature value=\"vsync\" />\n",
        "    <feature name=\"GAME ASPECT RATIO\" group=\"IMAGE\" order=\"3\" value=\"ratio\" description=\"Force the &quot;ratio&quot;\">\n",
        "      <choice name=\"4/3\" value=\"4/3\" />\n",
        "      <choice name=\"Auto\" value=\"None\" />\n",
        "    </feature>\n",
        "  </globalFeatures>\n",
        "  <emulator name=\"libretro\" features=\"netplay, rewind\">\n",
        "    <cores>\n",
        "      <core name=\"snes9x\" features=\"cheevos\">\n",
        "        <feature name=\"REGION\" value=\"snes9x_region\" description=\"\" preset=\"hidden\">\n",
        "        </feature>\n",
        "        <systems>\n",
        "          <system name=\"snes\" features=\"\" >\n",
        "            <sharedFeature value=\"vsync\" />\n",
        "          </system>\n",
        "        </systems>\n",
        "      </core>\n",
        "      <core name=\"fceumm\" features=\"\" />\n",
        "    </cores>\n",
        "    <systems>\n",
        "      <system name=\"nes\" features=\"padtokeyboard\" >\n",
        "        <feature name=\"PALETTE\" order=\"x1\" value=\"nes_palette\" description=\"\">\n",
        "        </feature>\n",
        "      </system>\n",
        "    </systems>\n",
        "  </emulator>\n",
        "  <emulator name=\"mame\" features=\"\" />\n",
        "</features>\n",
    ].concat();
    assert_eq!(xml, expected);

    let keys: Vec<&String> = to_translate.keys().collect();
    assert_eq!(keys, vec!["VSYNC", "", "On", "GAME ASPECT RATIO", "Force the \"ratio\"", "4/3", "Auto", "REGION", "PALETTE"]);
    let empty_uses = &to_translate[""];
    assert_eq!(empty_uses.len(), 3);
    let region_uses = &to_translate["REGION"];
    assert_eq!(region_uses.len(), 1);
    assert_eq!(region_uses[0].emulator, "libretro");
    assert_eq!(region_uses[0].core, Some("snes9x".to_string()));
    let palette_uses = &to_translate["PALETTE"];
    assert_eq!(palette_uses[0].core, None);
}

#[test]
fn features_xml_other_arch_skips_filtered() {
    let features = sample();
    let mut to_translate: IndexMap<String, Vec<TranslationComment>> = IndexMap::new();
    let xml = generate(&features, "bcm2711", &mut to_translate);
    assert!(!xml.contains("VSYNC"));
    assert!(!xml.contains("sharedFeature value"));
    assert!(!xml.contains("PALETTE"));
    assert!(xml.contains("  <sharedFeatures>\n  </sharedFeatures>\n"));
    assert!(!to_translate.contains_key("PALETTE"));
}

#[test]
fn features_xml_empty() {
    let features = IndexMap::new();
    let mut to_translate: IndexMap<String, Vec<TranslationComment>> = IndexMap::new();
    let xml = generate(&features, "x86_64", &mut to_translate);
    assert_eq!(xml, "<?xml version=\"1.0\" encoding=\"UTF-8\" ?>\n<features>\n</features>\n");
    assert!(to_translate.is_empty());
}

#[test]
fn find_all_collects_every_text_in_order() {
    let features = sample();
    let found = find_all(&features);
    let keys: Vec<&String> = found.keys().collect();
    assert_eq!(
        keys,
        vec!["VSYNC", "On", "Force the \"ratio\"", "IMAGE", "GAME ASPECT RATIO", "4/3", "Auto", "REGION", "PAL", "PALETTE"]
    );
    let pal = &found["PAL"];
    assert_eq!(pal.len(), 1);
    assert_eq!(pal[0].emulator, "libretro");
    assert_eq!(pal[0].core, Some("snes9x".to_string()));
    assert_eq!(found["VSYNC"][0].emulator, "shared");
    assert_eq!(found["VSYNC"][0].core, None);
}

#[test]
fn find_all_merges_repeated_texts() {
    let mut all = IndexMap::new();
    let mut a = emulator();
    a.cfeatures.insert("x".to_string(), cf("SAME"));
    let mut c = core_features();
    c.cfeatures.insert("y".to_string(), cf("SAME"));
    a.cores.insert("c1".to_string(), c);
    all.insert("emu".to_string(), a);
    let found = find_all(&all);
    assert_eq!(found.len(), 1);
    let uses = &found["SAME"];
    assert_eq!(uses.len(), 2);
    assert_eq!(uses[0].core, Some("c1".to_string()));
    assert_eq!(uses[1].core, None);
}

#[test]
fn features_json_structure() {
    let features = sample();
    let doc = generate_features(&features, "x86_64");

    let shared = doc.shared_features.as_ref().unwrap();
    assert_eq!(shared.custom_features.len(), 1);
    let vsync = &shared.custom_features[0];
    assert_eq!(vsync.name, "VSYNC");
    assert_eq!(vsync.value, Some("vsync".to_string()));
    let choices = vsync.choices.as_ref().unwrap();
    assert_eq!(choices.len(), 1);
    assert_eq!(choices[0].name, "On");
    assert_eq!(choices[0].value, Some("True".to_string()));

    let global = doc.global_features.as_ref().unwrap();
    let refs = global.shared_features.as_ref().unwrap();
    assert_eq!(refs.len(), 1);
    assert_eq!(refs[0].value, "vsync");
    let defs = global.custom_features.as_ref().unwrap();
    assert_eq!(defs.len(), 1);
    let ratio = &defs[0];
    assert_eq!(ratio.name, "GAME ASPECT RATIO");
    assert_eq!(ratio.description, Some("Force the \"ratio\"".to_string()));
    assert_eq!(ratio.group, Some("IMAGE".to_string()));
    assert_eq!(ratio.submenu, None);
    assert!(matches!(ratio.order, Some(OrderJson::Int(3))));
    let rc = ratio.choices.as_ref().unwrap();
    assert_eq!(rc.len(), 2);
    assert_eq!(rc[1].name, "Auto");
    assert_eq!(rc[1].value, Some("None".to_string()));

    let emulators = doc.emulators.as_ref().unwrap();
    assert_eq!(emulators.len(), 2);
    let lr = &emulators[0];
    assert_eq!(lr.name, "libretro");
    assert_eq!(lr.features, Some("netplay, rewind".to_string()));
    assert!(lr.shared_features.is_none());
    assert!(lr.custom_features.is_none());
    let cores = lr.cores.as_ref().unwrap();
    assert_eq!(cores.len(), 2);
    assert_eq!(cores[0].name, "snes9x");
    let region = &cores[0].custom_features.as_ref().unwrap()[0];
    assert_eq!(region.preset, Some("hidden".to_string()));
    assert!(region.choices.is_none());
    let core_systems = cores[0].systems.as_ref().unwrap();
    assert_eq!(core_systems[0].name, "snes");
    assert!(core_systems[0].features.is_none());
    assert_eq!(core_systems[0].shared_features.as_ref().unwrap()[0].value, "vsync");
    assert_eq!(cores[1].name, "fceumm");
    assert!(cores[1].features.is_none());
    assert!(cores[1].systems.is_none());
    let systems = lr.systems.as_ref().unwrap();
    assert_eq!(systems[0].name, "nes");
    let palette = &systems[0].custom_features.as_ref().unwrap()[0];
    assert!(matches!(&palette.order, Some(OrderJson::Text(t)) if t == "x1"));

    let mame = &emulators[1];
    assert_eq!(mame.name, "mame");
    assert!(mame.features.is_none());
    assert!(mame.cores.is_none());
    assert!(mame.systems.is_none());
}

#[test]
fn features_json_filters_by_arch() {
    let features = sample();
    let doc = generate_features(&features, "bcm2711");
    assert!(doc.shared_features.is_none());
    let global = doc.global_features.as_ref().unwrap();
    assert!(global.shared_features.is_none());
    let lr = &doc.emulators.as_ref().unwrap()[0];
    let systems = lr.systems.as_ref().unwrap();
    assert!(systems[0].custom_features.is_none());
}

#[test]
fn features_json_empty_document() {
    let doc = generate_features(&IndexMap::new(), "x86_64");
    assert!(doc.shared_features.is_none());
    assert!(doc.global_features.is_none());
    assert!(doc.emulators.is_none());
}

#[test]
fn every_recorded_text_is_found_arch_independently() {
    let features = sample();
    for arch in ["x86_64", "bcm2711"] {
        let mut recorded: IndexMap<String, Vec<TranslationComment>> = IndexMap::new();
        generate(&features, arch, &mut recorded);
        let found = find_all(&features);
        for (text, places) in &recorded {
            if text.is_empty() {
                continue;
            }
            let all = &found[text];
            for p in places {
                assert!(all.iter().any(|q| q.emulator == p.emulator && q.core == p.core), "{} {}", arch, text);
            }
        }
    }
}

#[test]
fn json_choices_match_xml_choice_lines() {
    let features = sample();
    let mut recorded: IndexMap<String, Vec<TranslationComment>> = IndexMap::new();
    let xml = generate(&features, "x86_64", &mut recorded);
    let doc = generate_features(&features, "x86_64");
    let ratio = &doc.global_features.as_ref().unwrap().custom_features.as_ref().unwrap()[0];
    assert_eq!(ratio.choices.as_ref().map(|c| c.len()), Some(2));
    assert!(xml.contains("      <choice name=\"4/3\" value=\"4/3\" />\n      <choice name=\"Auto\" value=\"None\" />\n"));
    let lr = &doc.emulators.as_ref().unwrap()[0];
    let region = &lr.cores.as_ref().unwrap()[0].custom_features.as_ref().unwrap()[0];
    assert!(region.choices.is_none());
    assert!(!xml.contains("<choice name=\"PAL\""));
}

#[test]
fn skipped_features_reported_in_order() {
    let mut features = sample();
    let mut extra = cf("EXTRA");
    extra.archs_exclude = strings(&["bcm2711"]);
    features["libretro"].cores["snes9x"].cfeatures.insert("snes9x_extra".to_string(), extra);
    features["libretro"].shared = strings(&["vsync"]);
    assert_eq!(
        feature_skips(&features, "bcm2711"),
        vec![
            "skipping emulator shared cfeature vsync",
            "skipping shared vsync",
            "skipping core libretro/snes9x cfeature snes9x_extra",
            "skipping shared vsync",
            "skipping system libretro/nes cfeature nes_palette",
            "skipping shared vsync",
        ]
    );
    assert_eq!(
        feature_json_skips(&features, "bcm2711"),
        vec!["skipping shared vsync", "skipping shared vsync", "skipping shared vsync"]
    );
    assert!(feature_skips(&features, "x86_64").is_empty());
    assert!(feature_json_skips(&features, "x86_64").is_empty());
}

#[test]
fn skipped_shared_section_feature_reported_as_emulator() {
    let features = sample();
    assert_eq!(
        feature_skips(&features, "bcm2711"),
        vec![
            "skipping emulator shared cfeature vsync",
            "skipping shared vsync",
            "skipping shared vsync",
            "skipping system libretro/nes cfeature nes_palette",
        ]
    );
}
